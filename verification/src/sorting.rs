//! The order in which hostnames are written out, and sorted lists without repeats.
//!
//! Hostnames are ordered as strings are: character by character from the left, by
//! code point, a proper prefix before what it is a prefix of.

use vstd::prelude::*;
use vstd::std_specs::iter::IteratorSpec;

verus! {

/// `a` comes before `b`, given that the two agree on every position before `i`.
pub open spec fn precedes_from(a: Seq<char>, b: Seq<char>, i: int) -> bool
    decreases a.len() - i,
{
    if i < 0 || i >= b.len() {
        false
    } else if i >= a.len() {
        true
    } else if a[i] != b[i] {
        a[i] < b[i]
    } else {
        precedes_from(a, b, i + 1)
    }
}

/// `a` comes strictly before `b` in lexicographic order.
pub open spec fn precedes(a: Seq<char>, b: Seq<char>) -> bool {
    precedes_from(a, b, 0)
}

/// How one string stands to another in the order.
#[derive(Clone, Copy, PartialEq, Eq, Structural, Debug)]
pub enum Rank {
    /// Strictly before.
    Before,
    /// The same string.
    Same,
    /// Strictly after.
    After,
}

/// How `a` stands to `b`.
pub open spec fn rank(a: Seq<char>, b: Seq<char>) -> Rank {
    if a == b {
        Rank::Same
    } else if precedes(a, b) {
        Rank::Before
    } else {
        Rank::After
    }
}

/// No string comes before itself.
pub proof fn lemma_precedes_irreflexive(a: Seq<char>, i: int)
    requires
        0 <= i,
    ensures
        !precedes_from(a, a, i),
    decreases a.len() - i,
{
    if i < a.len() {
        lemma_precedes_irreflexive(a, i + 1);
    }
}

/// If `a` comes before `b` and `b` before `c`, then `a` comes before `c`.
pub proof fn lemma_precedes_transitive(a: Seq<char>, b: Seq<char>, c: Seq<char>, i: int)
    requires
        0 <= i,
        precedes_from(a, b, i),
        precedes_from(b, c, i),
    ensures
        precedes_from(a, c, i),
    decreases a.len() - i,
{
    if i < a.len() && a[i] == b[i] && b[i] == c[i] {
        lemma_precedes_transitive(a, b, c, i + 1);
    }
}

/// Of two different strings that agree before `i`, one comes before the other.
pub proof fn lemma_precedes_total(a: Seq<char>, b: Seq<char>, i: int)
    requires
        0 <= i <= a.len(),
        i <= b.len(),
        a != b,
        forall|k: int| 0 <= k < i ==> a[k] == b[k],
    ensures
        precedes_from(a, b, i) || precedes_from(b, a, i),
    decreases a.len() - i,
{
    if i < a.len() && i < b.len() {
        if a[i] == b[i] {
            lemma_precedes_total(a, b, i + 1);
        }
    } else if i == a.len() && i == b.len() {
        assert(a =~= b);
    }
}

/// Two strings never come before each other.
pub proof fn lemma_precedes_asymmetric(a: Seq<char>, b: Seq<char>, i: int)
    requires
        0 <= i,
        precedes_from(a, b, i),
    ensures
        !precedes_from(b, a, i),
    decreases a.len() - i,
{
    if i < a.len() && i < b.len() && a[i] == b[i] {
        lemma_precedes_asymmetric(a, b, i + 1);
    }
}

/// The order is a strict total order: exactly one of "before", "same" and "after"
/// holds of two strings, and "before" is transitive.
pub proof fn lemma_order_is_total(a: Seq<char>, b: Seq<char>, c: Seq<char>)
    ensures
        !precedes(a, a),
        precedes(a, b) ==> !precedes(b, a),
        a != b ==> precedes(a, b) || precedes(b, a),
        precedes(a, b) && precedes(b, c) ==> precedes(a, c),
        rank(a, b) == Rank::After <==> precedes(b, a),
{
    lemma_precedes_irreflexive(a, 0);
    if precedes(a, b) {
        lemma_precedes_asymmetric(a, b, 0);
        if precedes(b, c) {
            lemma_precedes_transitive(a, b, c, 0);
        }
    }
    if precedes(b, a) {
        lemma_precedes_asymmetric(b, a, 0);
    }
    if a != b {
        lemma_precedes_total(a, b, 0);
    }
}

/// Compares two strings in lexicographic order.
pub fn compare(a: &str, b: &str) -> (r: Rank)
    ensures
        r == rank(a@, b@),
{
    let mut x = a.chars();
    let mut y = b.chars();
    let ghost mut i: int = 0;
    proof {
        assert(a@.skip(0) =~= a@);
        assert(b@.skip(0) =~= b@);
    }
    loop
        invariant
            0 <= i <= a@.len(),
            i <= b@.len(),
            x.remaining() == a@.skip(i),
            y.remaining() == b@.skip(i),
            forall|k: int| 0 <= k < i ==> a@[k] == b@[k],
            precedes(a@, b@) == precedes_from(a@, b@, i),
        decreases a@.len() - i,
    {
        let p = x.next();
        let q = y.next();
        match (p, q) {
            (None, None) => {
                proof {
                    assert(a@ =~= b@);
                }
                return Rank::Same;
            },
            (None, Some(_)) => {
                proof {
                    assert(a@ != b@);
                }
                return Rank::Before;
            },
            (Some(_), None) => {
                proof {
                    assert(a@ != b@);
                }
                return Rank::After;
            },
            (Some(c), Some(d)) => {
                proof {
                    assert(c == a@.skip(i)[0] && d == b@.skip(i)[0]);
                    assert(a@.skip(i).drop_first() =~= a@.skip(i + 1));
                    assert(b@.skip(i).drop_first() =~= b@.skip(i + 1));
                }
                if c != d {
                    proof {
                        assert(a@ != b@);
                    }
                    if c < d {
                        return Rank::Before;
                    } else {
                        return Rank::After;
                    }
                }
                proof {
                    i = i + 1;
                }
            },
        }
    }
}

/// Tells whether two strings are the same.
pub fn same(a: &str, b: &str) -> (r: bool)
    ensures
        r == (a@ == b@),
{
    match compare(a, b) {
        Rank::Same => true,
        _ => false,
    }
}

/// The strings that a list of `String`s holds, in order.
pub open spec fn views(v: Seq<String>) -> Seq<Seq<char>> {
    Seq::new(v.len(), |i: int| v[i]@)
}

/// The list is in strictly ascending order: each string comes before every later one.
/// Such a list holds no string twice.
pub open spec fn strictly_sorted(v: Seq<Seq<char>>) -> bool {
    forall|i: int, j: int| 0 <= i < j < v.len() ==> precedes(#[trigger] v[i], #[trigger] v[j])
}

/// A strictly sorted list holds no string twice.
pub proof fn lemma_sorted_has_no_repeats(v: Seq<Seq<char>>)
    requires
        strictly_sorted(v),
    ensures
        v.no_duplicates(),
{
    assert forall|i: int, j: int| 0 <= i < v.len() && 0 <= j < v.len() && i != j implies v[i]
        != v[j] by {
        lemma_precedes_irreflexive(v[i], 0);
        if i < j {
            assert(precedes(v[i], v[j]));
        } else {
            assert(precedes(v[j], v[i]));
        }
    }
}

/// A strictly sorted list is determined by the set of its strings: two such lists
/// that hold the same strings are the same list.
pub proof fn lemma_sorted_is_determined(v: Seq<Seq<char>>, w: Seq<Seq<char>>)
    requires
        strictly_sorted(v),
        strictly_sorted(w),
        v.to_set() == w.to_set(),
    ensures
        v == w,
    decreases v.len(),
{
    if v.len() == 0 {
        if w.len() > 0 {
            assert(w.to_set().contains(w[0]));
            assert(v.to_set().contains(w[0]));
        }
        assert(v =~= w);
    } else if w.len() == 0 {
        assert(v.to_set().contains(v[0]));
        assert(w.to_set().contains(v[0]));
    } else {
        // both lists start with the least string of the set
        assert(v.to_set().contains(v[0]));
        assert(w.to_set().contains(w[0]));
        assert(w.contains(v[0]));
        assert(v.contains(w[0]));
        let i = choose|i: int| 0 <= i < w.len() && w[i] == v[0];
        let j = choose|j: int| 0 <= j < v.len() && v[j] == w[0];
        if v[0] != w[0] {
            assert(precedes(w[0], w[i]));
            assert(precedes(v[0], v[j]));
            lemma_precedes_asymmetric(v[0], w[0], 0);
        }
        let vt = v.drop_first();
        let wt = w.drop_first();
        assert(strictly_sorted(vt)) by {
            assert forall|a: int, b: int| 0 <= a < b < vt.len() implies precedes(
                #[trigger] vt[a],
                #[trigger] vt[b],
            ) by {
                assert(precedes(v[a + 1], v[b + 1]));
            }
        }
        assert(strictly_sorted(wt)) by {
            assert forall|a: int, b: int| 0 <= a < b < wt.len() implies precedes(
                #[trigger] wt[a],
                #[trigger] wt[b],
            ) by {
                assert(precedes(w[a + 1], w[b + 1]));
            }
        }
        assert(vt.to_set() =~= wt.to_set()) by {
            assert forall|x: Seq<char>| vt.to_set().contains(x) == wt.to_set().contains(x) by {
                lemma_tail_set(v, x);
                lemma_tail_set(w, x);
                assert(v.to_set().contains(x) == w.to_set().contains(x));
            }
        }
        lemma_sorted_is_determined(vt, wt);
        assert(v =~= seq![v[0]] + vt);
        assert(w =~= seq![w[0]] + wt);
    }
}

/// Behind the first string of a strictly sorted list stand the other strings of the
/// list, and not the first.
proof fn lemma_tail_set(v: Seq<Seq<char>>, x: Seq<char>)
    requires
        strictly_sorted(v),
        v.len() > 0,
    ensures
        v.drop_first().to_set().contains(x) == (v.to_set().contains(x) && x != v[0]),
{
    let t = v.drop_first();
    if t.to_set().contains(x) {
        let k = choose|k: int| 0 <= k < t.len() && t[k] == x;
        assert(v[k + 1] == x);
        assert(precedes(v[0], v[k + 1]));
        lemma_precedes_irreflexive(x, 0);
        assert(v.contains(x));
    }
    if v.to_set().contains(x) && x != v[0] {
        let k = choose|k: int| 0 <= k < v.len() && v[k] == x;
        assert(t[k - 1] == x);
        assert(t.contains(x));
    }
}

/// One more string at the end of a list adds that string to its set.
pub proof fn lemma_push_set(s: Seq<Seq<char>>, x: Seq<char>)
    ensures
        s.push(x).to_set() == s.to_set().insert(x),
{
    s.lemma_push_to_set_commute(x);
}

/// A prefix that is one longer holds one more string.
pub proof fn lemma_take_set(s: Seq<Seq<char>>, i: int)
    requires
        0 <= i < s.len(),
    ensures
        s.take(i + 1).to_set() == s.take(i).to_set().insert(s[i]),
{
    assert(s.take(i + 1) =~= s.take(i).push(s[i]));
    lemma_push_set(s.take(i), s[i]);
}

/// Merges two strictly sorted lists into the strictly sorted list of the strings
/// that stand in either.
fn merge_unique(a: &Vec<String>, b: &Vec<String>) -> (out: Vec<String>)
    requires
        strictly_sorted(views(a@)),
        strictly_sorted(views(b@)),
    ensures
        strictly_sorted(views(out@)),
        views(out@).to_set() == views(a@).to_set().union(views(b@).to_set()),
{
    let ghost av = views(a@);
    let ghost bv = views(b@);
    let mut out: Vec<String> = Vec::new();
    let mut i: usize = 0;
    let mut j: usize = 0;
    proof {
        assert(views(out@) =~= Seq::<Seq<char>>::empty());
        assert(av.take(0) =~= Seq::<Seq<char>>::empty());
        assert(bv.take(0) =~= Seq::<Seq<char>>::empty());
        assert(views(out@).to_set() =~= av.take(0).to_set().union(bv.take(0).to_set()));
    }
    while i < a.len() || j < b.len()
        invariant
            av == views(a@),
            bv == views(b@),
            strictly_sorted(av),
            strictly_sorted(bv),
            i <= a@.len(),
            j <= b@.len(),
            strictly_sorted(views(out@)),
                views(out@).to_set() == av.take(i as int).to_set().union(bv.take(j as int).to_set()),
            forall|k: int|
                0 <= k < out@.len() && i < a@.len() ==> precedes(
                    #[trigger] views(out@)[k],
                    av[i as int],
                ),
            forall|k: int|
                0 <= k < out@.len() && j < b@.len() ==> precedes(
                    #[trigger] views(out@)[k],
                    bv[j as int],
                ),
        decreases (a@.len() - i) + (b@.len() - j),
    {
        let ghost before = views(out@);
        let take_a: bool;
        let take_b: bool;
        if i < a.len() && j < b.len() {
            proof {
                lemma_order_is_total(av[i as int], bv[j as int], bv[j as int]);
            }
            match compare(a[i].as_str(), b[j].as_str()) {
                Rank::Before => {
                    take_a = true;
                    take_b = false;
                },
                Rank::Same => {
                    take_a = true;
                    take_b = true;
                },
                Rank::After => {
                    take_a = false;
                    take_b = true;
                },
            }
        } else if i < a.len() {
            take_a = true;
            take_b = false;
        } else {
            take_a = false;
            take_b = true;
        }
        let ghost x: Seq<char> = if take_a {
            av[i as int]
        } else {
            bv[j as int]
        };
        if take_a {
            out.push(a[i].clone());
        } else {
            out.push(b[j].clone());
        }
        proof {
            assert(views(out@) =~= before.push(x));
            lemma_push_set(before, x);
            if take_a {
                lemma_take_set(av, i as int);
            }
            if take_b {
                lemma_take_set(bv, j as int);
            }
            let ni = if take_a {
                i + 1
            } else {
                i as int
            };
            let nj = if take_b {
                j + 1
            } else {
                j as int
            };
            assert(views(out@).to_set() =~= av.take(ni).to_set().union(bv.take(nj).to_set()));
            assert(strictly_sorted(views(out@)));
            assert forall|k: int| 0 <= k < out@.len() && ni < a@.len() implies precedes(
                #[trigger] views(out@)[k],
                av[ni],
            ) by {
                if take_a {
                    assert(precedes(av[i as int], av[ni]));
                    if k < before.len() {
                        lemma_precedes_transitive(before[k], av[i as int], av[ni], 0);
                    }
                }
            }
            assert forall|k: int| 0 <= k < out@.len() && nj < b@.len() implies precedes(
                #[trigger] views(out@)[k],
                bv[nj],
            ) by {
                if take_b {
                    assert(precedes(bv[j as int], bv[nj]));
                    if k < before.len() {
                        lemma_precedes_transitive(before[k], bv[j as int], bv[nj], 0);
                    } else if take_a {
                        assert(x == bv[j as int]);
                    }
                } else if k == before.len() {
                    assert(x == av[i as int]);
                }
            }
        }
        if take_a {
            i = i + 1;
        }
        if take_b {
            j = j + 1;
        }
    }
    proof {
        assert(av.take(i as int) =~= av);
        assert(bv.take(j as int) =~= bv);
    }
    out
}

/// Sorts the strings that stand in `v` from `lo` up to `hi`, leaving out repeats.
fn sort_range(v: &Vec<String>, lo: usize, hi: usize) -> (out: Vec<String>)
    requires
        lo <= hi <= v@.len(),
    ensures
        strictly_sorted(views(out@)),
        views(out@).to_set() == views(v@).subrange(lo as int, hi as int).to_set(),
    decreases hi - lo,
{
    let ghost part = views(v@).subrange(lo as int, hi as int);
    if hi - lo == 0 {
        let out: Vec<String> = Vec::new();
        proof {
            assert(views(out@) =~= part);
        }
        out
    } else if hi - lo == 1 {
        let mut out: Vec<String> = Vec::new();
        out.push(v[lo].clone());
        proof {
            assert(views(out@) =~= part);
        }
        out
    } else {
        let mid = lo + (hi - lo) / 2;
        let left = sort_range(v, lo, mid);
        let right = sort_range(v, mid, hi);
        proof {
            let l = views(v@).subrange(lo as int, mid as int);
            let r = views(v@).subrange(mid as int, hi as int);
            assert(part =~= l + r);
            vstd::seq_lib::seq_to_set_distributes_over_add(l, r);
        }
        merge_unique(&left, &right)
    }
}

/// Sorts a list of strings into strictly ascending order, leaving out repeats.
pub fn sort_unique(v: &Vec<String>) -> (out: Vec<String>)
    ensures
        strictly_sorted(views(out@)),
        views(out@).to_set() == views(v@).to_set(),
{
    proof {
        assert(views(v@).subrange(0, v@.len() as int) =~= views(v@));
    }
    sort_range(v, 0, v.len())
}

} // verus!

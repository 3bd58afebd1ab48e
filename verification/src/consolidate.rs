//! From the lines of a category's sources to the list that is written out: every
//! hostname that some line holds, once, in ascending order.

use crate::hostname::{extract_hostname, extracted, is_hostname};
use crate::sorting::{
    lemma_push_set,
    lemma_sorted_has_no_repeats,
    lemma_sorted_is_determined,
    lemma_take_set,
    sort_unique,
    strictly_sorted,
    views,
};
use vstd::prelude::*;

verus! {

/// The hostnames that the lines of one source hold.
pub open spec fn hosts_of_lines(lines: Seq<Seq<char>>) -> Set<Seq<char>> {
    Set::new(|h: Seq<char>| exists|i: int| 0 <= i < lines.len() && extracted(lines[i]) == Some(h))
}

/// The hostnames that the sources of a category hold, all sources taken together.
pub open spec fn hosts_of_sources(sources: Seq<Seq<Seq<char>>>) -> Set<Seq<char>> {
    Set::new(
        |h: Seq<char>|
            exists|k: int| 0 <= k < sources.len() && hosts_of_lines(sources[k]).contains(h),
    )
}

/// The sources as lists of lines, each line as its characters.
pub open spec fn texts(sources: Seq<Vec<String>>) -> Seq<Seq<Seq<char>>> {
    Seq::new(sources.len(), |k: int| views(sources[k]@))
}

/// `out` is what a category's sources consolidate to: the hostnames of all its
/// sources, each once, in strictly ascending order.
pub open spec fn is_consolidation(sources: Seq<Seq<Seq<char>>>, out: Seq<Seq<char>>) -> bool {
    strictly_sorted(out) && out.to_set() == hosts_of_sources(sources)
}

/// One more line adds the hostname that it holds, if it holds one.
pub proof fn lemma_hosts_of_one_more_line(lines: Seq<Seq<char>>, i: int)
    requires
        0 <= i < lines.len(),
    ensures
        hosts_of_lines(lines.take(i + 1)) == match extracted(lines[i]) {
            Some(h) => hosts_of_lines(lines.take(i)).insert(h),
            None => hosts_of_lines(lines.take(i)),
        },
{
    let more = lines.take(i + 1);
    let less = lines.take(i);
    let step = match extracted(lines[i]) {
        Some(h) => hosts_of_lines(less).insert(h),
        None => hosts_of_lines(less),
    };
    assert forall|h: Seq<char>| hosts_of_lines(more).contains(h) == step.contains(h) by {
        if hosts_of_lines(more).contains(h) {
            let k = choose|k: int| 0 <= k < more.len() && extracted(more[k]) == Some(h);
            if k < i {
                assert(less[k] == more[k]);
            }
        }
        if hosts_of_lines(less).contains(h) {
            let k = choose|k: int| 0 <= k < less.len() && extracted(less[k]) == Some(h);
            assert(more[k] == less[k]);
        }
        if extracted(lines[i]) == Some(h) {
            assert(more[i] == lines[i]);
        }
    }
    assert(hosts_of_lines(more) =~= step);
}

/// One more source adds the hostnames of its lines.
pub proof fn lemma_hosts_of_one_more_source(sources: Seq<Seq<Seq<char>>>, k: int)
    requires
        0 <= k < sources.len(),
    ensures
        hosts_of_sources(sources.take(k + 1)) == hosts_of_sources(sources.take(k)).union(
            hosts_of_lines(sources[k]),
        ),
{
    let more = sources.take(k + 1);
    let less = sources.take(k);
    let step = hosts_of_sources(less).union(hosts_of_lines(sources[k]));
    assert forall|h: Seq<char>| hosts_of_sources(more).contains(h) == step.contains(h) by {
        if hosts_of_sources(more).contains(h) {
            let j = choose|j: int| 0 <= j < more.len() && hosts_of_lines(more[j]).contains(h);
            if j < k {
                assert(less[j] == more[j]);
            }
        }
        if hosts_of_sources(less).contains(h) {
            let j = choose|j: int| 0 <= j < less.len() && hosts_of_lines(less[j]).contains(h);
            assert(more[j] == less[j]);
        }
        if hosts_of_lines(sources[k]).contains(h) {
            assert(more[k] == sources[k]);
        }
    }
    assert(hosts_of_sources(more) =~= step);
}

/// The hostnames gathered during one refresh of a category. It is built anew for
/// each refresh, filled line by line from all the category's sources, and turned
/// into the sorted list at the end.
pub struct HostnameSet {
    found: Vec<String>,
}

impl View for HostnameSet {
    type V = Set<Seq<char>>;

    closed spec fn view(&self) -> Set<Seq<char>> {
        views(self.found@).to_set()
    }
}

impl HostnameSet {
    /// The set that holds nothing yet.
    pub fn new() -> (s: Self)
        ensures
            s@ == Set::<Seq<char>>::empty(),
    {
        let s = HostnameSet { found: Vec::new() };
        proof {
            assert(views(s.found@) =~= Seq::<Seq<char>>::empty());
            assert(s@ =~= Set::<Seq<char>>::empty());
        }
        s
    }

    /// Reads one line and adds its hostname, if it has one. Returns whether it had.
    pub fn add_line(&mut self, line: &str) -> (had: bool)
        ensures
            had == extracted(line@) is Some,
            final(self)@ == match extracted(line@) {
                Some(h) => old(self)@.insert(h),
                None => old(self)@,
            },
    {
        match extract_hostname(line) {
            Some(h) => {
                let ghost before = views(self.found@);
                self.found.push(h);
                proof {
                    assert(views(self.found@) =~= before.push(h@));
                    lemma_push_set(before, h@);
                }
                true
            },
            None => false,
        }
    }

    /// Reads the lines of one source and adds the hostnames that they hold.
    pub fn add_lines(&mut self, lines: &Vec<String>)
        ensures
            final(self)@ == old(self)@.union(hosts_of_lines(views(lines@))),
    {
        let ghost all = views(lines@);
        let ghost start = self@;
        proof {
            assert(hosts_of_lines(all.take(0)) =~= Set::<Seq<char>>::empty());
            assert(start.union(hosts_of_lines(all.take(0))) =~= start);
        }
        let mut i: usize = 0;
        while i < lines.len()
            invariant
                i <= lines@.len(),
                all == views(lines@),
                self@ == start.union(hosts_of_lines(all.take(i as int))),
            decreases lines@.len() - i,
        {
            proof {
                lemma_hosts_of_one_more_line(all, i as int);
            }
            self.add_line(lines[i].as_str());
            proof {
                assert(self@ =~= start.union(hosts_of_lines(all.take(i + 1))));
            }
            i = i + 1;
        }
        proof {
            assert(all.take(i as int) =~= all);
        }
    }

    /// The hostnames of the set, each once, in strictly ascending order.
    pub fn into_sorted(self) -> (out: Vec<String>)
        ensures
            strictly_sorted(views(out@)),
            views(out@).to_set() == self@,
    {
        sort_unique(&self.found)
    }
}

/// Consolidates the sources of a category, each given as its lines: the result holds
/// every hostname that some line of some source holds, once, in strictly ascending
/// order. Sources that hold no hostname, and no sources at all, give the empty list.
pub fn consolidate(sources: &Vec<Vec<String>>) -> (out: Vec<String>)
    ensures
        is_consolidation(texts(sources@), views(out@)),
{
    let ghost all = texts(sources@);
    let mut set = HostnameSet::new();
    proof {
        assert(hosts_of_sources(all.take(0)) =~= Set::<Seq<char>>::empty());
    }
    let mut k: usize = 0;
    while k < sources.len()
        invariant
            k <= sources@.len(),
            all == texts(sources@),
            set@ == hosts_of_sources(all.take(k as int)),
        decreases sources@.len() - k,
    {
        proof {
            lemma_hosts_of_one_more_source(all, k as int);
        }
        set.add_lines(&sources[k]);
        k = k + 1;
    }
    proof {
        assert(all.take(k as int) =~= all);
    }
    set.into_sorted()
}

/// Every hostname that the sources hold is a well-formed hostname.
pub proof fn lemma_hosts_are_hostnames(sources: Seq<Seq<Seq<char>>>, h: Seq<char>)
    requires
        hosts_of_sources(sources).contains(h),
    ensures
        is_hostname(h),
{
    let k = choose|k: int| 0 <= k < sources.len() && hosts_of_lines(sources[k]).contains(h);
    let lines = sources[k];
    let i = choose|i: int| 0 <= i < lines.len() && extracted(lines[i]) == Some(h);
    crate::hostname::lemma_span_is_token(lines[i]);
    let span = crate::hostname::host_span(lines[i])->Some_0;
    crate::hostname::lemma_token_is_hostname(lines[i], span.0);
}

/// A consolidated list holds each hostname of the sources exactly once, in ascending
/// order, and nothing else: however often and in however many sources a hostname
/// stands, it has exactly one position in the list.
pub proof fn lemma_each_hostname_once(
    sources: Seq<Seq<Seq<char>>>,
    out: Seq<Seq<char>>,
    h: Seq<char>,
)
    requires
        is_consolidation(sources, out),
    ensures
        out.no_duplicates(),
        strictly_sorted(out),
        hosts_of_sources(sources).contains(h) <==> exists|i: int|
            0 <= i < out.len() && out[i] == h,
        forall|i: int, j: int|
            0 <= i < out.len() && 0 <= j < out.len() && out[i] == h && out[j] == h ==> i == j,
{
    lemma_sorted_has_no_repeats(out);
    assert(out.to_set().contains(h) == out.contains(h));
}

/// Consolidation is determined by the hostnames alone. Two runs whose sources hold
/// the same hostnames give the same list, whatever the order of the sources and of
/// their lines, and however often a hostname is repeated. In particular a second run
/// over unchanged sources gives the same list again.
pub proof fn lemma_consolidation_is_determined(
    first: Seq<Seq<Seq<char>>>,
    second: Seq<Seq<Seq<char>>>,
    out_first: Seq<Seq<char>>,
    out_second: Seq<Seq<char>>,
)
    requires
        is_consolidation(first, out_first),
        is_consolidation(second, out_second),
        hosts_of_sources(first) == hosts_of_sources(second),
    ensures
        out_first == out_second,
{
    lemma_sorted_is_determined(out_first, out_second);
}

/// Sources without any hostname consolidate to the empty list; so does a category of
/// which no source could be had.
pub proof fn lemma_nothing_from_nothing(sources: Seq<Seq<Seq<char>>>, out: Seq<Seq<char>>)
    requires
        is_consolidation(sources, out),
        hosts_of_sources(sources) == Set::<Seq<char>>::empty(),
    ensures
        out.len() == 0,
{
    if out.len() > 0 {
        assert(out.to_set().contains(out[0]));
    }
}

/// No sources hold no hostnames.
pub proof fn lemma_no_sources_no_hosts(sources: Seq<Seq<Seq<char>>>)
    requires
        sources.len() == 0,
    ensures
        hosts_of_sources(sources) == Set::<Seq<char>>::empty(),
{
    assert(hosts_of_sources(sources) =~= Set::<Seq<char>>::empty());
}

} // verus!

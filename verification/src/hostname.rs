//! The tolerant line grammar: at most one hostname is read from the start of a line.
//!
//! A line is read as optional white space, an optional `||`, an optional address
//! prefix (`0.0.0.0` or `127.0.0.1` and white space), the hostname, and an optional
//! `^`. Whatever follows is ignored. The hostname is one label or more, with a dot
//! between each two; a label is one character or more out of letters, digits and
//! the hyphen.

use vstd::prelude::*;

verus! {

/// White space as the grammar sees it: the characters with the Unicode property
/// `White_Space`.
pub open spec fn is_space(c: char) -> bool {
    ('\u{9}' <= c && c <= '\u{d}') || c == ' ' || c == '\u{85}' || c == '\u{a0}' || c
        == '\u{1680}' || ('\u{2000}' <= c && c <= '\u{200a}') || c == '\u{2028}' || c
        == '\u{2029}' || c == '\u{202f}' || c == '\u{205f}' || c == '\u{3000}'
}

/// The characters a hostname label is made of: ASCII letters, digits and the hyphen.
pub open spec fn is_label_char(c: char) -> bool {
    ('a' <= c && c <= 'z') || ('A' <= c && c <= 'Z') || ('0' <= c && c <= '9') || c == '-'
}

/// A label character or the dot that separates labels.
pub open spec fn is_host_char(c: char) -> bool {
    is_label_char(c) || c == '.'
}

/// The first position at or after `from` that holds no white space.
pub open spec fn skip_spaces(s: Seq<char>, from: int) -> int
    decreases s.len() - from,
{
    if 0 <= from < s.len() && is_space(s[from]) {
        skip_spaces(s, from + 1)
    } else {
        from
    }
}

/// A hostname that has come as far as `at` goes on there: with a label character,
/// or with a dot that has a label character behind it.
pub open spec fn goes_on(s: Seq<char>, at: int) -> bool {
    0 <= at < s.len() && (is_label_char(s[at]) || (s[at] == '.' && at + 1 < s.len()
        && is_label_char(s[at + 1])))
}

/// Where a hostname that has come as far as `from` ends: at the first position at or
/// after `from` where it does not go on.
pub open spec fn name_end(s: Seq<char>, from: int) -> int
    decreases s.len() - from,
{
    if goes_on(s, from) {
        name_end(s, from + 1)
    } else {
        from
    }
}

/// `pat` stands in `s` at position `at`.
pub open spec fn has_at(s: Seq<char>, at: int, pat: Seq<char>) -> bool {
    0 <= at && at + pat.len() <= s.len() && s.subrange(at, at + pat.len()) == pat
}

/// The Adblock prefix `||`.
pub open spec fn bars() -> Seq<char> {
    seq!['|', '|']
}

/// The unspecified address, as hosts files write it.
pub open spec fn zero_address() -> Seq<char> {
    seq!['0', '.', '0', '.', '0', '.', '0']
}

/// The loopback address, as hosts files write it.
pub open spec fn loopback_address() -> Seq<char> {
    seq!['1', '2', '7', '.', '0', '.', '0', '.', '1']
}

/// The hostname that starts at `at`, as the pair of its first position and the
/// position behind its last: the longest run of labels with single dots between
/// them that starts there. One label is enough. A dot with no label behind it does
/// not belong to the hostname.
pub open spec fn host_at(s: Seq<char>, at: int) -> Option<(int, int)> {
    if 0 <= at < s.len() && is_label_char(s[at]) {
        Some((at, name_end(s, at)))
    } else {
        None
    }
}

/// The position behind the prefix `||` where it stands at `at`, else `at`.
pub open spec fn after_bars(s: Seq<char>, at: int) -> int {
    if has_at(s, at, bars()) {
        at + 2
    } else {
        at
    }
}

/// The position behind an address prefix that starts at `at`: one of the two addresses
/// and all the white space behind it, of which there is at least one character.
pub open spec fn after_address(s: Seq<char>, at: int) -> Option<int> {
    if has_at(s, at, zero_address()) && at + 7 < s.len() && is_space(s[at + 7]) {
        Some(skip_spaces(s, at + 7))
    } else if has_at(s, at, loopback_address()) && at + 9 < s.len() && is_space(s[at + 9]) {
        Some(skip_spaces(s, at + 9))
    } else {
        None
    }
}

/// Where the hostname stands in a line that starts with neither white space nor `||`.
/// An address is read as a prefix where a hostname follows it. Where none follows,
/// the prefix is absent and the address itself is the hostname of the line.
pub open spec fn span_at_start(rest: Seq<char>) -> Option<(int, int)> {
    match after_address(rest, 0) {
        Some(behind) => match host_at(rest, behind) {
            Some(span) => Some(span),
            None => host_at(rest, 0),
        },
        None => host_at(rest, 0),
    }
}

/// Where the hostname of a line stands.
pub open spec fn host_span(s: Seq<char>) -> Option<(int, int)> {
    let start = after_bars(s, skip_spaces(s, 0));
    match after_address(s, start) {
        Some(behind) => match host_at(s, behind) {
            Some(span) => Some(span),
            None => host_at(s, start),
        },
        None => host_at(s, start),
    }
}

/// The hostname of a line, if it has one.
pub open spec fn extracted(s: Seq<char>) -> Option<Seq<char>> {
    match host_span(s) {
        Some((from, to)) => Some(s.subrange(from, to)),
        None => None,
    }
}

/// What a well-formed hostname is: labels of at least one character each, with one
/// dot between each two. So it is not empty, holds label characters and dots only,
/// starts and ends with a label character, and never has two dots in a row.
pub open spec fn is_hostname(h: Seq<char>) -> bool {
    &&& h.len() > 0
    &&& is_label_char(h[0])
    &&& is_label_char(h[h.len() - 1])
    &&& forall|i: int| 0 <= i < h.len() ==> is_host_char(#[trigger] h[i])
    &&& forall|i: int| 0 <= i < h.len() - 1 && #[trigger] h[i] == '.' ==> h[i + 1] != '.'
}

/// White space is passed over up to the first character that is none.
pub proof fn lemma_skip_spaces(s: Seq<char>, from: int)
    requires
        0 <= from <= s.len(),
    ensures
        from <= skip_spaces(s, from) <= s.len(),
        forall|i: int| from <= i < skip_spaces(s, from) ==> is_space(#[trigger] s[i]),
        skip_spaces(s, from) < s.len() ==> !is_space(s[skip_spaces(s, from)]),
    decreases s.len() - from,
{
    if from < s.len() && is_space(s[from]) {
        lemma_skip_spaces(s, from + 1);
    }
}

/// If every position from `from` up to `to` holds white space and the one at `to`
/// does not, the white space from `from` ends at `to`.
pub proof fn lemma_skip_spaces_is(s: Seq<char>, from: int, to: int)
    requires
        0 <= from <= to <= s.len(),
        forall|i: int| from <= i < to ==> is_space(#[trigger] s[i]),
        to < s.len() ==> !is_space(s[to]),
    ensures
        skip_spaces(s, from) == to,
    decreases to - from,
{
    if from < to {
        lemma_skip_spaces_is(s, from + 1, to);
    }
}

/// A hostname goes on at every position up to its end, and not at its end.
pub proof fn lemma_name_end(s: Seq<char>, from: int)
    requires
        0 <= from <= s.len(),
    ensures
        from <= name_end(s, from) <= s.len(),
        forall|i: int| from <= i < name_end(s, from) ==> goes_on(s, i),
        !goes_on(s, name_end(s, from)),
    decreases s.len() - from,
{
    if goes_on(s, from) {
        lemma_name_end(s, from + 1);
    }
}

/// If a hostname goes on at every position from `from` up to `to` and not at `to`,
/// it ends at `to`.
pub proof fn lemma_name_end_is(s: Seq<char>, from: int, to: int)
    requires
        0 <= from <= to <= s.len(),
        forall|i: int| from <= i < to ==> goes_on(s, i),
        !goes_on(s, to),
    ensures
        name_end(s, from) == to,
    decreases to - from,
{
    if from < to {
        assert(goes_on(s, from));
        lemma_name_end_is(s, from + 1, to);
    }
}

/// Tells whether `c` is white space.
pub fn space_char(c: char) -> (r: bool)
    ensures
        r == is_space(c),
{
    ('\u{9}' <= c && c <= '\u{d}') || c == ' ' || c == '\u{85}' || c == '\u{a0}' || c
        == '\u{1680}' || ('\u{2000}' <= c && c <= '\u{200a}') || c == '\u{2028}' || c
        == '\u{2029}' || c == '\u{202f}' || c == '\u{205f}' || c == '\u{3000}'
}

/// Tells whether `c` may stand in a hostname label.
pub fn label_char(c: char) -> (r: bool)
    ensures
        r == is_label_char(c),
{
    ('a' <= c && c <= 'z') || ('A' <= c && c <= 'Z') || ('0' <= c && c <= '9') || c == '-'
}

/// Walks over the white space that starts at `from` and returns its end.
pub fn scan_spaces(v: &Vec<char>, from: usize) -> (to: usize)
    ensures
        to == skip_spaces(v@, from as int),
        from <= to,
        from <= v@.len() ==> to <= v@.len(),
{
    let mut i: usize = from;
    while i < v.len() && space_char(v[i])
        invariant
            from <= i,
            from <= v@.len() ==> i <= v@.len(),
            skip_spaces(v@, from as int) == skip_spaces(v@, i as int),
        decreases v@.len() - i,
    {
        i = i + 1;
    }
    i
}

/// Tells whether a hostname that has come as far as `at` goes on there.
pub fn continues_at(v: &Vec<char>, at: usize) -> (r: bool)
    ensures
        r == goes_on(v@, at as int),
{
    at < v.len() && (label_char(v[at]) || (v[at] == '.' && v.len() - at > 1 && label_char(
        v[at + 1],
    )))
}

/// Tells whether the prefix `||` stands at `at`.
fn bars_at(v: &Vec<char>, at: usize) -> (r: bool)
    requires
        at <= v@.len(),
    ensures
        r == has_at(v@, at as int, bars()),
        r ==> at + 2 <= v@.len() <= usize::MAX,
{
    let r = v.len() - at >= 2 && v[at] == '|' && v[at + 1] == '|';
    proof {
        if r {
            assert(v@.subrange(at as int, at + 2) =~= bars());
        } else if at + 2 <= v@.len() {
            let sub = v@.subrange(at as int, at + 2);
            assert(sub[0] == v@[at as int] && sub[1] == v@[at + 1]);
            assert(bars()[0] == '|' && bars()[1] == '|');
        }
    }
    r
}

/// Tells whether the address `0.0.0.0` stands at `at`.
fn zero_address_at(v: &Vec<char>, at: usize) -> (r: bool)
    requires
        at <= v@.len(),
    ensures
        r == has_at(v@, at as int, zero_address()),
{
    let r = v.len() - at >= 7 && v[at] == '0' && v[at + 1] == '.' && v[at + 2] == '0' && v[at
        + 3] == '.' && v[at + 4] == '0' && v[at + 5] == '.' && v[at + 6] == '0';
    proof {
        let pat = zero_address();
        if r {
            assert(v@.subrange(at as int, at + 7) =~= pat);
        } else if at + 7 <= v@.len() {
            let sub = v@.subrange(at as int, at + 7);
            assert(forall|i: int| 0 <= i < 7 ==> sub[i] == v@[at + i]);
            assert(pat[0] == '0' && pat[1] == '.' && pat[2] == '0' && pat[3] == '.' && pat[4]
                == '0' && pat[5] == '.' && pat[6] == '0');
            assert(sub[0] == v@[at + 0] && sub[1] == v@[at + 1] && sub[2] == v@[at + 2]
                && sub[3] == v@[at + 3] && sub[4] == v@[at + 4] && sub[5] == v@[at + 5]
                && sub[6] == v@[at + 6]);
        }
    }
    r
}

/// Tells whether the address `127.0.0.1` stands at `at`.
fn loopback_address_at(v: &Vec<char>, at: usize) -> (r: bool)
    requires
        at <= v@.len(),
    ensures
        r == has_at(v@, at as int, loopback_address()),
{
    let r = v.len() - at >= 9 && v[at] == '1' && v[at + 1] == '2' && v[at + 2] == '7' && v[at
        + 3] == '.' && v[at + 4] == '0' && v[at + 5] == '.' && v[at + 6] == '0' && v[at + 7]
        == '.' && v[at + 8] == '1';
    proof {
        let pat = loopback_address();
        if r {
            assert(v@.subrange(at as int, at + 9) =~= pat);
        } else if at + 9 <= v@.len() {
            let sub = v@.subrange(at as int, at + 9);
            assert(pat[0] == '1' && pat[1] == '2' && pat[2] == '7' && pat[3] == '.' && pat[4]
                == '0' && pat[5] == '.' && pat[6] == '0' && pat[7] == '.' && pat[8] == '1');
            assert(sub[0] == v@[at + 0] && sub[1] == v@[at + 1] && sub[2] == v@[at + 2]
                && sub[3] == v@[at + 3] && sub[4] == v@[at + 4] && sub[5] == v@[at + 5]
                && sub[6] == v@[at + 6] && sub[7] == v@[at + 7] && sub[8] == v@[at + 8]);
        }
    }
    r
}

/// Reads the address prefix that starts at `at`, if one stands there, and returns the
/// position behind it.
fn scan_address(v: &Vec<char>, at: usize) -> (r: Option<usize>)
    requires
        at <= v@.len(),
    ensures
        match r {
            Some(behind) => after_address(v@, at as int) == Some(behind as int) && behind
                <= v@.len(),
            None => after_address(v@, at as int) is None,
        },
{
    if zero_address_at(v, at) && v.len() - at > 7 && space_char(v[at + 7]) {
        Some(scan_spaces(v, at + 7))
    } else if loopback_address_at(v, at) && v.len() - at > 9 && space_char(v[at + 9]) {
        Some(scan_spaces(v, at + 9))
    } else {
        None
    }
}

/// Reads the hostname that starts at `at`, if one stands there.
fn scan_host(v: &Vec<char>, at: usize) -> (r: Option<(usize, usize)>)
    requires
        at <= v@.len(),
    ensures
        match r {
            Some((from, to)) => host_at(v@, at as int) == Some((from as int, to as int))
                && from == at && from < to <= v@.len(),
            None => host_at(v@, at as int) is None,
        },
{
    if at < v.len() && label_char(v[at]) {
        let len = v.len();
        let mut i: usize = at + 1;
        while continues_at(v, i)
            invariant
                len == v@.len(),
                at < i <= len,
                name_end(v@, at as int) == name_end(v@, i as int),
            decreases v@.len() - i,
        {
            i = i + 1;
        }
        Some((at, i))
    } else {
        None
    }
}

/// Finds where the hostname of a line stands.
pub fn find_host(v: &Vec<char>) -> (r: Option<(usize, usize)>)
    ensures
        match r {
            Some((from, to)) => host_span(v@) == Some((from as int, to as int)) && from < to
                <= v@.len(),
            None => host_span(v@) is None,
        },
{
    let blank = scan_spaces(v, 0);
    let start = if bars_at(v, blank) {
        blank + 2
    } else {
        blank
    };
    match scan_address(v, start) {
        Some(behind) => match scan_host(v, behind) {
            Some(span) => Some(span),
            None => scan_host(v, start),
        },
        None => scan_host(v, start),
    }
}

/// The characters of `line`, in order.
pub fn chars_of(line: &str) -> (v: Vec<char>)
    ensures
        v@ == line@,
{
    let mut v: Vec<char> = Vec::new();
    for c in it: line.chars()
        invariant
            v@ == line@.take(it.index() as int),
            it.seq() == line@,
    {
        v.push(c);
    }
    v
}

/// Reads the hostname of a line, if it has one.
///
/// The result is the hostname exactly as the line writes it; nothing is folded or
/// trimmed. A line without a hostname in the grammar's place gives `None`: a blank
/// line, a comment, a rule of another form.
pub fn extract_hostname(line: &str) -> (r: Option<String>)
    ensures
        match r {
            Some(h) => extracted(line@) == Some(h@) && is_hostname(h@),
            None => extracted(line@) is None,
        },
{
    let v = chars_of(line);
    match find_host(&v) {
        Some((from, to)) => {
            proof {
                lemma_span_is_token(line@);
                lemma_token_is_hostname(line@, from as int);
            }
            Some(line.substring_char(from, to).to_owned())
        },
        None => None,
    }
}

/// The hostname of a line is a hostname-shaped token of that line.
pub proof fn lemma_span_is_token(line: Seq<char>)
    ensures
        match host_span(line) {
            Some((from, to)) => host_at(line, from) == Some((from, to)),
            None => true,
        },
{
}

/// A hostname-shaped token, cut out of its line, is a well-formed hostname.
pub proof fn lemma_token_is_hostname(s: Seq<char>, at: int)
    requires
        host_at(s, at) is Some,
    ensures
        ({
            let span = host_at(s, at)->Some_0;
            &&& span.0 == at
            &&& 0 <= at < span.1 <= s.len()
            &&& is_hostname(s.subrange(at, span.1))
        }),
{
    let end = name_end(s, at);
    lemma_name_end(s, at);
    assert(goes_on(s, at));
    lemma_name_end(s, at + 1);
    let h = s.subrange(at, end);
    assert(goes_on(s, end - 1));
    assert forall|i: int| 0 <= i < h.len() implies is_host_char(#[trigger] h[i]) by {
        assert(goes_on(s, at + i));
    }
    assert forall|i: int| 0 <= i < h.len() - 1 && #[trigger] h[i] == '.' implies h[i + 1]
        != '.' by {
        assert(goes_on(s, at + i));
        assert(h[i + 1] == s[at + i + 1]);
    }
}

/// Whether a hostname goes on at a position does not depend on what stands before it.
pub proof fn lemma_goes_on_shift(s: Seq<char>, cut: int, at: int)
    requires
        0 <= cut <= at,
        cut <= s.len(),
    ensures
        goes_on(s, at) == goes_on(s.skip(cut), at - cut),
{
    let t = s.skip(cut);
    if at < s.len() {
        assert(t[at - cut] == s[at]);
        if at + 1 < s.len() {
            assert(t[at + 1 - cut] == s[at + 1]);
        }
    }
}

/// White space does not depend on what stands before it: cutting `cut` characters
/// off the front moves its end by `cut`.
pub proof fn lemma_skip_spaces_shift(s: Seq<char>, cut: int, from: int)
    requires
        0 <= cut <= from <= s.len(),
    ensures
        skip_spaces(s, from) == cut + skip_spaces(s.skip(cut), from - cut),
    decreases s.len() - from,
{
    let t = s.skip(cut);
    if from < s.len() {
        assert(t[from - cut] == s[from]);
        if is_space(s[from]) {
            lemma_skip_spaces_shift(s, cut, from + 1);
        }
    }
}

/// The end of a hostname does not depend on what stands before it.
pub proof fn lemma_name_end_shift(s: Seq<char>, cut: int, from: int)
    requires
        0 <= cut <= from <= s.len(),
    ensures
        name_end(s, from) == cut + name_end(s.skip(cut), from - cut),
    decreases s.len() - from,
{
    lemma_goes_on_shift(s, cut, from);
    if goes_on(s, from) {
        lemma_name_end_shift(s, cut, from + 1);
    }
}

/// A span moved `by` positions to the right.
pub open spec fn moved(span: Option<(int, int)>, by: int) -> Option<(int, int)> {
    match span {
        Some((from, to)) => Some((from + by, to + by)),
        None => None,
    }
}

/// Whether a pattern stands at a position does not depend on what stands before it.
pub proof fn lemma_has_at_shift(s: Seq<char>, cut: int, at: int, pat: Seq<char>)
    requires
        0 <= cut <= at <= s.len(),
    ensures
        has_at(s, at, pat) == has_at(s.skip(cut), at - cut, pat),
{
    if at + pat.len() <= s.len() {
        assert(s.skip(cut).subrange(at - cut, at - cut + pat.len()) =~= s.subrange(
            at,
            at + pat.len(),
        ));
    }
}

/// The hostname at a position does not depend on what stands before it.
pub proof fn lemma_host_at_shift(s: Seq<char>, cut: int, at: int)
    requires
        0 <= cut <= at <= s.len(),
    ensures
        host_at(s, at) == moved(host_at(s.skip(cut), at - cut), cut),
{
    let t = s.skip(cut);
    if at < s.len() {
        assert(t[at - cut] == s[at]);
    }
    lemma_name_end_shift(s, cut, at);
}

/// The address prefix at a position does not depend on what stands before it.
pub proof fn lemma_after_address_shift(s: Seq<char>, cut: int, at: int)
    requires
        0 <= cut <= at <= s.len(),
    ensures
        after_address(s, at) == match after_address(s.skip(cut), at - cut) {
            Some(behind) => Some(behind + cut),
            None => None,
        },
{
    let t = s.skip(cut);
    lemma_has_at_shift(s, cut, at, zero_address());
    lemma_has_at_shift(s, cut, at, loopback_address());
    if at + 7 < s.len() {
        assert(t[at + 7 - cut] == s[at + 7]);
        lemma_skip_spaces_shift(s, cut, at + 7);
    }
    if at + 9 < s.len() {
        assert(t[at + 9 - cut] == s[at + 9]);
        lemma_skip_spaces_shift(s, cut, at + 9);
    }
}

/// A well-formed hostname that stands in a line at `at`, and does not go on behind
/// its last character, is the hostname-shaped token at `at`.
pub proof fn lemma_hostname_in_line(s: Seq<char>, at: int, host: Seq<char>)
    requires
        is_hostname(host),
        has_at(s, at, host),
        !goes_on(s, at + host.len()),
    ensures
        host_at(s, at) == Some((at, at + host.len())),
{
    let n = host.len() as int;
    let sub = s.subrange(at, at + n);
    assert(s[at] == sub[0]);
    assert forall|i: int| at <= i < at + n implies goes_on(s, i) by {
        let k = i - at;
        assert(s[i] == sub[k]);
        assert(is_host_char(host[k]));
        if host[k] == '.' {
            assert(k < n - 1);
            assert(is_host_char(host[k + 1]));
            assert(s[i + 1] == sub[k + 1]);
        }
    }
    lemma_name_end_is(s, at, at + n);
}

/// What may stand before the hostname of a line: white space and, behind it, the
/// prefix `||` or nothing.
pub open spec fn lead(blank: Seq<char>, barred: bool) -> Seq<char> {
    if barred {
        blank + bars()
    } else {
        blank
    }
}

/// An address prefix: one of the two addresses and the white space behind it; or
/// nothing at all.
pub open spec fn is_address_prefix(address: Seq<char>, gap: Seq<char>) -> bool {
    ||| address.len() == 0 && gap.len() == 0
    ||| {
        &&& address == zero_address() || address == loopback_address()
        &&& gap.len() > 0
        &&& forall|i: int| 0 <= i < gap.len() ==> is_space(#[trigger] gap[i])
    }
}

/// What is written behind a hostname: `^` and `trail` where `caret` is set, else
/// `trail` alone.
pub open spec fn written_trail(caret: bool, trail: Seq<char>) -> Seq<char> {
    if caret {
        seq!['^'] + trail
    } else {
        trail
    }
}

/// The line reads as an address prefix and a hostname behind it.
pub open spec fn reads_as_prefixed(t: Seq<char>) -> bool {
    match after_address(t, 0) {
        Some(behind) => host_at(t, behind) is Some,
        None => false,
    }
}

/// White space and `||` before the rest of a line are passed over: the hostname of
/// the whole line is read from the rest alone, if the rest starts with neither.
pub proof fn lemma_lead_is_skipped(blank: Seq<char>, barred: bool, rest: Seq<char>)
    requires
        forall|i: int| 0 <= i < blank.len() ==> is_space(#[trigger] blank[i]),
        rest.len() > 0 ==> !is_space(rest[0]),
        !barred ==> !has_at(rest, 0, bars()),
    ensures
        ({
            let pre = lead(blank, barred);
            let line = pre + rest;
            let start = pre.len() as int;
            &&& after_bars(line, skip_spaces(line, 0)) == start
            &&& line.skip(start) == rest
            &&& host_span(line) == moved(span_at_start(rest), start)
        }),
{
    let pre = lead(blank, barred);
    let line = pre + rest;
    let start = pre.len() as int;
    let w = blank.len() as int;
    assert(line.skip(start) =~= rest);
    assert forall|i: int| 0 <= i < w implies is_space(#[trigger] line[i]) by {
        assert(line[i] == blank[i]);
    }
    if barred {
        assert(line[w] == '|');
        assert(line.subrange(w, w + 2) =~= bars());
    } else if rest.len() > 0 {
        assert(line[w] == rest[0]);
    }
    lemma_skip_spaces_is(line, 0, w);
    if !barred {
        lemma_has_at_shift(line, start, start, bars());
    }
    assert(after_bars(line, w) == start);
    lemma_after_address_shift(line, start, start);
    lemma_host_at_shift(line, start, start);
    match after_address(rest, 0) {
        Some(behind) => {
            if has_at(rest, 0, zero_address()) && 7 < rest.len() && is_space(rest[7]) {
                lemma_skip_spaces(rest, 7);
            } else {
                lemma_skip_spaces(rest, 9);
            }
            lemma_host_at_shift(line, start, behind + start);
        },
        None => {},
    }
}

/// A sequence that starts with another character than `|` does not start with `||`.
pub proof fn lemma_not_barred(s: Seq<char>)
    requires
        s.len() > 0 && s[0] != '|',
    ensures
        !has_at(s, 0, bars()),
{
    if has_at(s, 0, bars()) {
        assert(s.subrange(0, 2)[0] == s[0]);
        assert(bars()[0] == '|');
    }
}

/// An address and the white space behind it, standing at the start of a sequence
/// with something else than white space behind them, are read as its address prefix.
pub proof fn lemma_reads_address(s: Seq<char>, address: Seq<char>, gap: Seq<char>)
    requires
        address.len() > 0,
        is_address_prefix(address, gap),
        has_at(s, 0, address),
        has_at(s, address.len() as int, gap),
        address.len() + gap.len() < s.len() ==> !is_space(s[(address.len() + gap.len()) as int]),
    ensures
        after_address(s, 0) == Some((address.len() + gap.len()) as int),
        s[0] != '|',
{
    let n = address.len() as int;
    let a = n + gap.len();
    assert(s.subrange(0, n)[0] == s[0]);
    assert(s.subrange(n, a)[0] == s[n]);
    assert forall|i: int| n <= i < a implies is_space(#[trigger] s[i]) by {
        assert(s[i] == s.subrange(n, a)[i - n]);
    }
    lemma_skip_spaces_is(s, n, a);
    if address == zero_address() {
        assert(n == 7);
        assert(address[0] == '0');
    } else {
        assert(n == 9);
        assert(address[0] == '1');
        if has_at(s, 0, zero_address()) {
            assert(s.subrange(0, 7)[0] == s[0]);
            assert(zero_address()[0] == '0');
        }
    }
}

/// The grammar reads back what was written in it. Take white space, the prefix `||`
/// or not, an address prefix or not, a well-formed hostname of one label or more,
/// and behind it either `^` and anything, or anything with which the hostname does
/// not go on: the hostname of that line is exactly the hostname that was written.
///
/// One line is left out: a bare address that stands where the hostname should, with
/// white space and another hostname behind it, reads as a prefix before that hostname.
pub proof fn lemma_extracts_written_hostname(
    blank: Seq<char>,
    barred: bool,
    address: Seq<char>,
    gap: Seq<char>,
    host: Seq<char>,
    caret: bool,
    trail: Seq<char>,
)
    requires
        forall|i: int| 0 <= i < blank.len() ==> is_space(#[trigger] blank[i]),
        is_address_prefix(address, gap),
        is_hostname(host),
        !caret ==> !goes_on(trail, 0),
        address.len() == 0 ==> !reads_as_prefixed(host + written_trail(caret, trail)),
    ensures
        extracted(
            lead(blank, barred) + (address + gap + host + written_trail(caret, trail)),
        ) == Some(host),
{
    let tail = written_trail(caret, trail);
    let rest = address + gap + host + tail;
    let n = address.len() as int;
    let a = n + gap.len();
    let end = a + host.len();
    assert(rest.subrange(a, end) =~= host);
    assert(rest[a] == host[0]);
    assert(rest.skip(end) =~= tail);
    lemma_goes_on_shift(rest, end, end);
    if caret {
        assert(tail[0] == '^');
    }
    assert(!goes_on(tail, 0));
    lemma_hostname_in_line(rest, a, host);
    if n == 0 {
        assert(rest =~= host + tail);
        lemma_not_barred(rest);
    } else {
        assert(rest.subrange(0, n) =~= address);
        assert(rest.subrange(n, a) =~= gap);
        lemma_reads_address(rest, address, gap);
        lemma_not_barred(rest);
    }
    assert(span_at_start(rest) == Some((a, end)));
    lemma_written_line(blank, barred, rest, a, host);
}

/// Behind white space and `||`, the hostname is read from the rest of the line.
proof fn lemma_written_line(
    blank: Seq<char>,
    barred: bool,
    rest: Seq<char>,
    a: int,
    host: Seq<char>,
)
    requires
        forall|i: int| 0 <= i < blank.len() ==> is_space(#[trigger] blank[i]),
        0 <= a,
        a + host.len() <= rest.len(),
        rest.len() > 0 ==> !is_space(rest[0]),
        !has_at(rest, 0, bars()),
        span_at_start(rest) == Some((a, a + host.len())),
        rest.subrange(a, a + host.len()) == host,
    ensures
        extracted(lead(blank, barred) + rest) == Some(host),
{
    let pre = lead(blank, barred);
    let line = pre + rest;
    let start = pre.len() as int;
    lemma_lead_is_skipped(blank, barred, rest);
    assert(host_span(line) == Some((start + a, start + a + host.len())));
    assert(line.subrange(start + a, start + a + host.len()) =~= rest.subrange(
        a,
        a + host.len(),
    ));
}

/// A line that holds no label character has no hostname: a hostname-shaped token
/// starts wherever a label character stands, and nowhere else.
pub proof fn lemma_no_token_no_hostname(line: Seq<char>)
    requires
        forall|at: int| 0 <= at < line.len() ==> host_at(line, at) is None,
    ensures
        extracted(line) is None,
        forall|at: int| 0 <= at < line.len() ==> !is_label_char(#[trigger] line[at]),
{
    lemma_span_is_token(line);
    match host_span(line) {
        Some((from, to)) => {
            lemma_token_is_hostname(line, from);
        },
        None => {},
    }
    assert forall|at: int| 0 <= at < line.len() implies !is_label_char(#[trigger] line[at]) by {
        assert(host_at(line, at) is None);
    }
}

/// A blank line has no hostname, nor has a line whose first character behind the
/// leading white space is neither `|` nor a label character, such as a comment.
pub proof fn lemma_comment_has_no_hostname(line: Seq<char>)
    requires
        ({
            let first = skip_spaces(line, 0);
            first < line.len() ==> line[first] != '|' && !is_label_char(line[first])
        }),
    ensures
        extracted(line) is None,
{
    let first = skip_spaces(line, 0);
    lemma_skip_spaces(line, 0);
    if first < line.len() {
        if has_at(line, first, bars()) {
            assert(line.subrange(first, first + 2)[0] == line[first]);
            assert(bars()[0] == '|');
        }
        if has_at(line, first, zero_address()) {
            assert(line.subrange(first, first + 7)[0] == line[first]);
            assert(zero_address()[0] == '0');
        }
        if has_at(line, first, loopback_address()) {
            assert(line.subrange(first, first + 9)[0] == line[first]);
            assert(loopback_address()[0] == '1');
        }
    } else {
        assert(!has_at(line, first, bars()));
        assert(!has_at(line, first, zero_address()));
        assert(!has_at(line, first, loopback_address()));
    }
}

} // verus!

//! What is written to disk and where: the content of a category's output file, the
//! path it is written to, and the names of the scratch files of a refresh.

use crate::consolidate::{hosts_of_sources, is_consolidation};
use crate::sorting::views;
use vstd::prelude::*;
use vstd::string::StringExecFns;

verus! {

/// `String::push` appends one character to the end of the string and leaves the rest
/// as it was.
pub assume_specification[ String::push ](s: &mut String, ch: char)
    ensures
        final(s)@ == old(s)@.push(ch),
;

/// What stands before the hostname on each line of an output file.
pub open spec fn entry_prefix() -> Seq<char> {
    seq!['0', '.', '0', '.', '0', '.', '0', ' ']
}

/// One line of an output file: the prefix, the hostname, a line feed.
pub open spec fn entry(host: Seq<char>) -> Seq<char> {
    entry_prefix() + host + seq!['\n']
}

/// The content of the output file for a list of hostnames: one line for each, in
/// the order of the list.
pub open spec fn rendered(hosts: Seq<Seq<char>>) -> Seq<char>
    decreases hosts.len(),
{
    if hosts.len() == 0 {
        Seq::empty()
    } else {
        rendered(hosts.drop_last()) + entry(hosts.last())
    }
}

/// The extension of an output file.
pub open spec fn output_extension() -> Seq<char> {
    seq!['.', 't', 'x', 't']
}

/// The extension of a scratch file.
pub open spec fn scratch_extension() -> Seq<char> {
    seq!['.', 't', 'm', 'p']
}

/// The name of the scratch directory below the output directory.
pub open spec fn scratch_dir_name() -> Seq<char> {
    seq!['t', 'm', 'p']
}

/// What every scratch file's name starts with.
pub open spec fn scratch_prefix() -> Seq<char> {
    seq!['f', 'u', 'l', 'l', '_']
}

/// `name` as an entry of the directory `dir`.
pub open spec fn joined(dir: Seq<char>, name: Seq<char>) -> Seq<char> {
    dir + seq!['/'] + name
}

/// Where the output file of `category` lies below `output_dir`.
pub open spec fn output_path_of(output_dir: Seq<char>, category: Seq<char>) -> Seq<char> {
    joined(output_dir, category + output_extension())
}

/// The characters that some file systems do not accept in a file's name.
pub open spec fn is_reserved(c: char) -> bool {
    c == ':' || c == '*' || c == '?' || c == '"' || c == '<' || c == '>' || c == '|'
}

/// What a character of a URL becomes in a scratch file's name: a path separator
/// becomes `_`, and so does a reserved character where `strip_reserved` is set;
/// every other character stays.
pub open spec fn inert(c: char, strip_reserved: bool) -> char {
    if c == '/' || c == '\\' || (strip_reserved && is_reserved(c)) {
        '_'
    } else {
        c
    }
}

/// The stem of the scratch file for `url`.
pub open spec fn sanitized(url: Seq<char>, strip_reserved: bool) -> Seq<char> {
    scratch_prefix() + url.map_values(|c: char| inert(c, strip_reserved))
}

/// The name of the scratch file for `url`.
pub open spec fn scratch_name_of(url: Seq<char>, strip_reserved: bool) -> Seq<char> {
    sanitized(url, strip_reserved) + scratch_extension()
}

/// A list that is one longer renders to one more line.
pub proof fn lemma_rendered_one_more(hosts: Seq<Seq<char>>, i: int)
    requires
        0 <= i < hosts.len(),
    ensures
        rendered(hosts.take(i + 1)) == rendered(hosts.take(i)) + entry(hosts[i]),
{
    assert(hosts.take(i + 1).drop_last() =~= hosts.take(i));
}

/// Sources that hold no hostname give an empty output file: a file of no lines, and
/// not a failure. So does a category of which every source failed.
pub proof fn lemma_no_hosts_empty_file(sources: Seq<Seq<Seq<char>>>, hosts: Seq<Seq<char>>)
    requires
        is_consolidation(sources, hosts),
        hosts_of_sources(sources) == Set::<Seq<char>>::empty(),
    ensures
        hosts.len() == 0,
        rendered(hosts) == Seq::<char>::empty(),
{
    crate::consolidate::lemma_nothing_from_nothing(sources, hosts);
}

/// The output file is determined by the hostnames of the sources: two refreshes
/// whose sources hold the same hostnames write the same file, character for character.
pub proof fn lemma_same_hosts_same_file(
    first: Seq<Seq<Seq<char>>>,
    second: Seq<Seq<Seq<char>>>,
    hosts_first: Seq<Seq<char>>,
    hosts_second: Seq<Seq<char>>,
)
    requires
        is_consolidation(first, hosts_first),
        is_consolidation(second, hosts_second),
        hosts_of_sources(first) == hosts_of_sources(second),
    ensures
        rendered(hosts_first) == rendered(hosts_second),
{
    crate::consolidate::lemma_consolidation_is_determined(
        first,
        second,
        hosts_first,
        hosts_second,
    );
}

/// Writes out a list of hostnames as the content of an output file: for each
/// hostname, in the order of the list, the line `0.0.0.0 `, the hostname, a line feed.
pub fn render_output(hosts: &Vec<String>) -> (out: String)
    ensures
        out@ == rendered(views(hosts@)),
{
    let ghost all = views(hosts@);
    let mut out = String::new();
    let mut i: usize = 0;
    proof {
        assert(all.take(0) =~= Seq::<Seq<char>>::empty());
    }
    while i < hosts.len()
        invariant
            i <= hosts@.len(),
            all == views(hosts@),
            out@ == rendered(all.take(i as int)),
        decreases hosts@.len() - i,
    {
        let ghost before = out@;
        proof {
            reveal_strlit("0.0.0.0 ");
            reveal_strlit("\n");
            lemma_rendered_one_more(all, i as int);
            assert("0.0.0.0 "@ =~= entry_prefix());
            assert("\n"@ =~= seq!['\n']);
        }
        out.append("0.0.0.0 ");
        out.append(hosts[i].as_str());
        out.append("\n");
        proof {
            assert(out@ =~= before + entry(all[i as int]));
        }
        i = i + 1;
    }
    proof {
        assert(all.take(i as int) =~= all);
    }
    out
}

/// The path of the output file of `category` below `output_dir`:
/// `output_dir`, a slash, the category, `.txt`.
pub fn output_path(output_dir: &str, category: &str) -> (path: String)
    ensures
        path@ == output_path_of(output_dir@, category@),
{
    proof {
        reveal_strlit("/");
        reveal_strlit(".txt");
        assert("/"@ =~= seq!['/']);
        assert(".txt"@ =~= output_extension());
    }
    let mut path = output_dir.to_owned();
    path.append("/");
    path.append(category);
    path.append(".txt");
    proof {
        assert(path@ =~= output_path_of(output_dir@, category@));
    }
    path
}

/// The path of the scratch directory of a refresh: `tmp` below `output_dir`.
pub fn scratch_dir(output_dir: &str) -> (path: String)
    ensures
        path@ == joined(output_dir@, scratch_dir_name()),
{
    proof {
        reveal_strlit("/tmp");
        assert("/tmp"@ =~= seq!['/'] + scratch_dir_name());
    }
    let mut path = output_dir.to_owned();
    path.append("/tmp");
    proof {
        assert(path@ =~= joined(output_dir@, scratch_dir_name()));
    }
    path
}

/// Tells whether some file systems refuse `c` in a file's name.
pub fn reserved_char(c: char) -> (r: bool)
    ensures
        r == is_reserved(c),
{
    c == ':' || c == '*' || c == '?' || c == '"' || c == '<' || c == '>' || c == '|'
}

/// The stem of the scratch file for `url`: `full_` and the URL, in which each path
/// separator (`/` or `\`) is replaced by `_`, and each reserved character too where
/// `strip_reserved` is set, as it is to be on systems that refuse them. The stem
/// depends on nothing but the URL and that switch.
pub fn sanitize_filename(url: &str, strip_reserved: bool) -> (name: String)
    ensures
        name@ == sanitized(url@, strip_reserved),
        name@.len() == url@.len() + 5,
        forall|i: int| 5 <= i < name@.len() ==> name@[i] != '/' && name@[i] != '\\',
{
    proof {
        reveal_strlit("full_");
        assert("full_"@ =~= scratch_prefix());
    }
    let ghost done = url@.map_values(|c: char| inert(c, strip_reserved));
    let mut name = "full_".to_owned();
    for c in it: url.chars()
        invariant
            it.seq() == url@,
            done == url@.map_values(|c: char| inert(c, strip_reserved)),
            name@ == scratch_prefix() + done.take(it.index() as int),
    {
        let ghost before = name@;
        let ghost k = it.index() as int;
        let r = if c == '/' || c == '\\' || (strip_reserved && reserved_char(c)) {
            '_'
        } else {
            c
        };
        name.push(r);
        proof {
            assert(done[k] == inert(url@[k], strip_reserved));
            assert(done.take(k + 1) =~= done.take(k).push(r));
            assert(name@ =~= scratch_prefix() + done.take(k + 1));
        }
    }
    proof {
        assert(done.take(url@.len() as int) =~= done);
        assert forall|i: int| 5 <= i < name@.len() implies name@[i] != '/' && name@[i]
            != '\\' by {
            assert(name@[i] == done[i - 5]);
            assert(done[i - 5] == inert(url@[i - 5], strip_reserved));
        }
    }
    name
}

/// The name of the scratch file for `url`: its stem and `.tmp`.
pub fn scratch_file_name(url: &str, strip_reserved: bool) -> (name: String)
    ensures
        name@ == scratch_name_of(url@, strip_reserved),
{
    proof {
        reveal_strlit(".tmp");
        assert(".tmp"@ =~= scratch_extension());
    }
    let mut name = sanitize_filename(url, strip_reserved);
    name.append(".tmp");
    name
}

/// The path of the scratch file for `url` in the directory `scratch_dir`.
pub fn scratch_path(scratch_dir: &str, url: &str, strip_reserved: bool) -> (path: String)
    ensures
        path@ == joined(scratch_dir@, scratch_name_of(url@, strip_reserved)),
{
    proof {
        reveal_strlit("/");
        assert("/"@ =~= seq!['/']);
    }
    let name = scratch_file_name(url, strip_reserved);
    let mut path = scratch_dir.to_owned();
    path.append("/");
    path.append(name.as_str());
    path
}

/// The output file of a category: where it lies and what it holds.
pub struct OutputFile {
    /// The path of the file.
    pub path: String,
    /// The whole content of the file.
    pub content: String,
}

/// Tells whether `file` is the output file of `category` below `output_dir` for the
/// given sources: it lies at the category's path and holds one line for each hostname
/// of the sources, each hostname once, in strictly ascending order.
pub open spec fn is_output_of(
    file: OutputFile,
    category: Seq<char>,
    sources: Seq<Seq<Seq<char>>>,
    output_dir: Seq<char>,
) -> bool {
    &&& file.path@ == output_path_of(output_dir, category)
    &&& exists|hosts: Seq<Seq<char>>|
        is_consolidation(sources, hosts) && file.content@ == rendered(hosts)
}

} // verus!

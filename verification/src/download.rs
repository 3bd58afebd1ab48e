//! What the downloads of a category come to: which scratch files there are to
//! read, or why the category cannot be refreshed.
//!
//! A URL that cannot be fetched is passed over: it adds nothing, and the category
//! goes on. A scratch file that cannot be written is an error of the category.

use crate::consolidate::{is_consolidation, lemma_no_sources_no_hosts};
use crate::output::{lemma_no_hosts_empty_file, rendered};
use crate::retry::{
    after_attempts,
    is_success_status,
    lemma_bad_status_never_fetches,
    outcomes_of,
    FetchState,
};
use crate::sorting::views;
use vstd::prelude::*;

verus! {

/// How the download of one URL ended.
#[derive(Debug)]
pub enum DownloadOutcome {
    /// The URL was fetched and its text is in the scratch file at this path.
    Stored(String),
    /// Every attempt to fetch the URL failed.
    Unreachable,
    /// The URL was fetched, but its scratch file could not be created or written;
    /// with the reason.
    NotWritten(String),
}

/// The paths of the scratch files that were written, in the order of the outcomes.
pub open spec fn stored_paths(outcomes: Seq<DownloadOutcome>) -> Seq<Seq<char>>
    decreases outcomes.len(),
{
    if outcomes.len() == 0 {
        Seq::empty()
    } else {
        let before = stored_paths(outcomes.drop_last());
        match outcomes.last() {
            DownloadOutcome::Stored(path) => before.push(path@),
            _ => before,
        }
    }
}

/// The outcome at `at` is the first that tells of a scratch file that could not be
/// written.
pub open spec fn is_first_unwritten(outcomes: Seq<DownloadOutcome>, at: int) -> bool {
    &&& 0 <= at < outcomes.len()
    &&& outcomes[at] is NotWritten
    &&& forall|k: int| 0 <= k < at ==> !((#[trigger] outcomes[k]) is NotWritten)
}

/// Every scratch file that was to be written was written.
pub open spec fn all_written(outcomes: Seq<DownloadOutcome>) -> bool {
    forall|k: int| 0 <= k < outcomes.len() ==> !((#[trigger] outcomes[k]) is NotWritten)
}

/// One more outcome adds its scratch file, if it has one.
pub proof fn lemma_stored_one_more(outcomes: Seq<DownloadOutcome>, i: int)
    requires
        0 <= i < outcomes.len(),
    ensures
        stored_paths(outcomes.take(i + 1)) == match outcomes[i] {
            DownloadOutcome::Stored(path) => stored_paths(outcomes.take(i)).push(path@),
            _ => stored_paths(outcomes.take(i)),
        },
{
    assert(outcomes.take(i + 1).drop_last() =~= outcomes.take(i));
}

/// URLs that cannot be fetched leave nothing behind: where every download ended
/// `Unreachable`, there is no scratch file, and no error either.
pub proof fn lemma_unreachable_leaves_nothing(outcomes: Seq<DownloadOutcome>)
    requires
        forall|k: int| 0 <= k < outcomes.len() ==> (#[trigger] outcomes[k]) is Unreachable,
    ensures
        all_written(outcomes),
        stored_paths(outcomes).len() == 0,
    decreases outcomes.len(),
{
    if outcomes.len() > 0 {
        let shorter = outcomes.drop_last();
        assert forall|k: int| 0 <= k < shorter.len() implies (#[trigger] shorter[k])
            is Unreachable by {
            assert(shorter[k] == outcomes[k]);
        }
        lemma_unreachable_leaves_nothing(shorter);
        assert(outcomes.last() == outcomes[outcomes.len() - 1]);
    }
}

/// A category whose URLs are all answered without a success status, on every attempt,
/// is refreshed to an empty file, and without an error. Say that each URL got at
/// least as many answers as attempts are allowed, none with a success status; that a
/// download ended `Unreachable` exactly where its fetch ended in failure; and that
/// there is one source for each scratch file. Then every fetch has ended in failure,
/// no scratch file is missing, there is no source, and the output file has no line.
pub proof fn lemma_failing_urls_give_empty_file(
    retries: usize,
    answers: Seq<Seq<(bool, u16, bool)>>,
    outcomes: Seq<DownloadOutcome>,
    sources: Seq<Seq<Seq<char>>>,
    hosts: Seq<Seq<char>>,
)
    requires
        outcomes.len() == answers.len(),
        forall|k: int, i: int|
            0 <= k < answers.len() && 0 <= i < answers[k].len() ==> !is_success_status(
                (#[trigger] answers[k][i]).1,
            ),
        forall|k: int| 0 <= k < answers.len() ==> (#[trigger] answers[k]).len() >= retries,
        forall|k: int|
            0 <= k < answers.len() ==> ((#[trigger] outcomes[k]) is Unreachable
                <==> after_attempts(retries, outcomes_of(answers[k])) == FetchState::Exhausted),
        sources.len() == stored_paths(outcomes).len(),
        is_consolidation(sources, hosts),
    ensures
        forall|k: int|
            0 <= k < answers.len() ==> after_attempts(retries, outcomes_of(#[trigger] answers[k]))
                == FetchState::Exhausted,
        all_written(outcomes),
        sources.len() == 0,
        hosts.len() == 0,
        rendered(hosts) == Seq::<char>::empty(),
{
    assert forall|k: int| 0 <= k < answers.len() implies after_attempts(
        retries,
        outcomes_of(#[trigger] answers[k]),
    ) == FetchState::Exhausted by {
        lemma_bad_status_never_fetches(retries, answers[k]);
    }
    assert forall|k: int| 0 <= k < outcomes.len() implies (#[trigger] outcomes[k])
        is Unreachable by {
        assert(after_attempts(retries, outcomes_of(answers[k])) == FetchState::Exhausted);
    }
    lemma_unreachable_leaves_nothing(outcomes);
    lemma_no_sources_no_hosts(sources);
    lemma_no_hosts_empty_file(sources, hosts);
}

/// What the downloads of a category come to. If every scratch file that was to be
/// written was written, the result is the paths of the scratch files, in the order
/// of the outcomes; a URL that could not be fetched is passed over. If one could not
/// be written, the result is the reason of the first such.
pub fn collect_downloads(outcomes: &Vec<DownloadOutcome>) -> (r: Result<Vec<String>, String>)
    ensures
        match r {
            Ok(paths) => all_written(outcomes@) && views(paths@) == stored_paths(outcomes@),
            Err(reason) => exists|at: int|
                is_first_unwritten(outcomes@, at) && reason@ == (
                #[trigger] outcomes@[at])->NotWritten_0@,
        },
{
    let mut paths: Vec<String> = Vec::new();
    let mut i: usize = 0;
    proof {
        assert(views(paths@) =~= stored_paths(outcomes@.take(0)));
    }
    while i < outcomes.len()
        invariant
            i <= outcomes@.len(),
            forall|k: int| 0 <= k < i ==> !((#[trigger] outcomes@[k]) is NotWritten),
            views(paths@) == stored_paths(outcomes@.take(i as int)),
        decreases outcomes@.len() - i,
    {
        proof {
            lemma_stored_one_more(outcomes@, i as int);
        }
        let ghost before = views(paths@);
        match &outcomes[i] {
            DownloadOutcome::Stored(path) => {
                paths.push(path.clone());
                proof {
                    assert(views(paths@) =~= before.push(path@));
                }
            },
            DownloadOutcome::Unreachable => {},
            DownloadOutcome::NotWritten(reason) => {
                proof {
                    assert(is_first_unwritten(outcomes@, i as int));
                }
                return Err(reason.clone());
            },
        }
        i = i + 1;
    }
    proof {
        assert(outcomes@.take(i as int) =~= outcomes@);
    }
    Ok(paths)
}

} // verus!

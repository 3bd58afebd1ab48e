//! The service that refreshes the categories: its rules, step by step.
//!
//! The service holds no connection. It says what a fetch does next, what a
//! category's sources come to, and where a refresh goes on; whoever holds the
//! network and the disk does what it says and reports back.

use crate::client::{exhausted_reason, fetch_exhausted, HttpClientError};
use crate::consolidate::{consolidate, is_consolidation, texts};
use crate::lists::{UrlLists, CATEGORY_COUNT};
use crate::output::{output_path, output_path_of, render_output, rendered, OutputFile};
use crate::pool::{fresh, DownloadPool};
use crate::refresh::{first_refresh_state, next_refresh_state, RefreshState};
use crate::retry::{first_state, next_state, FetchEvent, FetchState};
use crate::sorting::views;
use vstd::prelude::*;

verus! {

/// The service, with the number of attempts that it allows each fetch.
pub struct BlockListService {
    retries: usize,
}

impl BlockListService {
    /// The number of attempts that a fetch may make.
    pub closed spec fn attempts(&self) -> usize {
        self.retries
    }

    /// A service that allows each fetch `retries` attempts.
    pub fn new(retries: usize) -> (service: Self)
        ensures
            service.attempts() == retries,
    {
        BlockListService { retries }
    }

    /// The number of attempts that a fetch may make.
    pub fn retries(&self) -> (n: usize)
        ensures
            n == self.attempts(),
    {
        self.retries
    }

    /// Where a fetch starts.
    pub fn begin_fetch(&self) -> (state: FetchState)
        ensures
            state == first_state(self.attempts()),
    {
        if self.retries >= 1 {
            FetchState::Attempting(1)
        } else {
            FetchState::Exhausted
        }
    }

    /// Where a fetch goes from `state` on `event`: to its end when an attempt has
    /// succeeded; when one has failed, to the delay if another attempt is left and to
    /// its end in failure if none is; and from the delay to the next attempt.
    pub fn fetch_with_retry(&self, state: FetchState, event: FetchEvent) -> (next: FetchState)
        ensures
            next == next_state(self.attempts(), state, event),
    {
        match (state, event) {
            (FetchState::Attempting(_), FetchEvent::Succeeded) => FetchState::Fetched,
            (FetchState::Attempting(n), FetchEvent::Failed) => if n < self.retries {
                FetchState::Waiting(n)
            } else {
                FetchState::Exhausted
            },
            (FetchState::Waiting(n), FetchEvent::Waited) => if n < self.retries {
                FetchState::Attempting(n + 1)
            } else {
                FetchState::Exhausted
            },
            _ => state,
        }
    }

    /// The failure of a fetch of `url` that has ended with every attempt failed. It
    /// tells the URL and the number of attempts, and is not an error of the category:
    /// the URL then adds nothing to it.
    pub fn fetch_failure(&self, url: &str) -> (e: HttpClientError)
        ensures
            e == HttpClientError::IoError(e->IoError_0),
            e->IoError_0@ == exhausted_reason(url@, self.attempts() as nat),
    {
        fetch_exhausted(url, self.retries)
    }

    /// The pool for the downloads of a category with the given URLs, of which at
    /// most `concurrency` are fetched at once.
    pub fn download_to_temp(&self, urls: &Vec<String>, concurrency: usize) -> (pool:
        DownloadPool)
        ensures
            pool@ == fresh(urls@.len(), concurrency as nat),
    {
        DownloadPool::new(urls.len(), concurrency)
    }

    /// The content of the output file for the given sources, each source given as
    /// its lines: one line for each hostname that the sources hold, each hostname
    /// once, in strictly ascending order.
    pub fn consolidate_temp_files(&self, sources: &Vec<Vec<String>>) -> (content: String)
        ensures
            exists|hosts: Seq<Seq<char>>|
                is_consolidation(texts(sources@), hosts) && content@ == rendered(hosts),
            sources@.len() == 0 ==> content@.len() == 0,
    {
        let hosts = consolidate(sources);
        let content = render_output(&hosts);
        proof {
            if sources@.len() == 0 {
                crate::consolidate::lemma_no_sources_no_hosts(texts(sources@));
                crate::output::lemma_no_hosts_empty_file(texts(sources@), views(hosts@));
            }
        }
        content
    }

    /// The output file of `category` for the sources that could be fetched, each
    /// given as its lines. A source that could not be fetched is not among them, and
    /// that is all that comes of it: with no source at all the file is empty.
    pub fn process_category(
        &self,
        category: &str,
        sources: &Vec<Vec<String>>,
        output_dir: &str,
    ) -> (file: OutputFile)
        ensures
            file.path@ == output_path_of(output_dir@, category@),
            exists|hosts: Seq<Seq<char>>|
                is_consolidation(texts(sources@), hosts) && file.content@ == rendered(hosts),
            sources@.len() == 0 ==> file.content@.len() == 0,
    {
        let content = self.consolidate_temp_files(sources);
        let path = output_path(output_dir, category);
        OutputFile { path, content }
    }

    /// Where a refresh of the categories of `lists` starts.
    pub fn begin_refresh(&self, lists: &UrlLists) -> (state: RefreshState)
        ensures
            state == first_refresh_state(CATEGORY_COUNT),
    {
        let total = lists.as_map().len();
        if total > 0 {
            RefreshState::Processing(0)
        } else {
            RefreshState::Finished
        }
    }

    /// Where a refresh of the categories of `lists` goes from `state` when the
    /// category under way has ended, `written` telling whether its output file was
    /// written: to the next category, to the end behind the last, and to failure at
    /// the first category that was not written.
    pub fn fetch_all_categories(&self, lists: &UrlLists, state: RefreshState, written: bool) -> (next:
        RefreshState)
        ensures
            next == next_refresh_state(CATEGORY_COUNT, state, written),
    {
        let total = lists.as_map().len();
        match state {
            RefreshState::Processing(i) => if !written {
                RefreshState::Failed(i)
            } else if i < total - 1 {
                RefreshState::Processing(i + 1)
            } else {
                RefreshState::Finished
            },
            _ => state,
        }
    }
}

} // verus!

//! The walk over a directory tree, as a machine that decides and leaves
//! the reading of the file system to its driver.
//!
//! The driver takes the next item of work with [`Walker::next`]. A report
//! it prints. For an entry it looks up the facts and calls
//! [`Walker::visit`], prints what the verdict holds, and where the verdict
//! says so lists the directory and hands the listing to
//! [`Walker::listed`].

use crate::diagnostic::{Diagnostic, SetupError};
use crate::filter::{Facts, FilterType};
use crate::pattern::{compile, find_in_name, name_match, pattern_compiles, regex_new};
use crate::visit::{decide, emitted, printed, Located, Verdict};
use regex::Regex;
use vstd::prelude::*;

verus! {

/// Where a search starts, what it looks for and how it prints.
pub struct SearchConfig {
    /// The root directory, as the user named it.
    pub dir: String,
    /// The pattern that names are held against.
    pub pattern: Regex,
    /// The type restriction.
    pub filter: FilterType,
    /// Whether the matched part of a name is highlighted.
    pub colorize: bool,
}

/// One step of the walk that is still to be taken.
#[derive(Debug, PartialEq, Eq)]
pub enum WorkItem {
    /// An entry to visit.
    Visit(Located),
    /// An entry that can only be reported: its name could not be read.
    Report(Diagnostic),
}

impl WorkItem {
    /// The work for an entry whose name could be read: a visit.
    pub fn named(path: String, parent: String, name: String) -> (item: WorkItem)
        ensures
            item == WorkItem::Visit(Located { path, parent, name }),
    {
        WorkItem::Visit(Located { path, parent, name })
    }

    /// The work for a path without a final component: a report that
    /// names the path.
    pub fn unnamed(path: String) -> (item: WorkItem)
        ensures
            item == WorkItem::Report(Diagnostic::MissingName { path }),
    {
        WorkItem::Report(Diagnostic::MissingName { path })
    }

    /// The work for an entry whose name is no valid text: a report that
    /// names the entry.
    pub fn undecodable(name: String) -> (item: WorkItem)
        ensures
            item == WorkItem::Report(Diagnostic::UndecodableName { name }),
    {
        WorkItem::Report(Diagnostic::UndecodableName { name })
    }

    /// The work for a step at which the listing of `dir` failed: a report
    /// with the path of the directory and the cause.
    pub fn failed_step(dir: &Located, cause: String) -> (item: WorkItem)
        ensures
            item == WorkItem::Report(Diagnostic::Iteration { path: dir.path, cause }),
    {
        WorkItem::Report(Diagnostic::Iteration { path: dir.path.clone(), cause })
    }
}

/// A walk in progress.
pub struct Walker {
    config: SearchConfig,
    pending: Vec<WorkItem>,
}

/// The configuration that the outcome of compiling the pattern leads to.
pub open spec fn configured(
    dir: String,
    compiled: Result<Regex, regex::Error>,
    filter: FilterType,
    colorize: bool,
) -> Result<SearchConfig, SetupError> {
    match compiled {
        Ok(pattern) => Ok(SearchConfig { dir, pattern, filter, colorize }),
        Err(_) => Err(SetupError::InvalidPattern),
    }
}

/// Puts the configuration of a search together, given the outcome of
/// compiling its pattern.
pub fn configure_with(
    dir: String,
    compiled: Result<Regex, regex::Error>,
    filter: FilterType,
    colorize: bool,
) -> (r: Result<SearchConfig, SetupError>)
    ensures
        r == configured(dir, compiled, filter, colorize),
{
    match compiled {
        Ok(pattern) => Ok(SearchConfig { dir, pattern, filter, colorize }),
        Err(_) => Err(SetupError::InvalidPattern),
    }
}

/// Compiles the pattern and puts the configuration of a search together.
/// A pattern that does not compile is the one reason to fail.
pub fn configure(
    dir: String,
    pattern: &str,
    filter: FilterType,
    colorize: bool,
) -> (r: Result<SearchConfig, SetupError>)
    ensures
        r == configured(dir, regex_new(pattern@), filter, colorize),
        r is Ok <==> pattern_compiles(pattern@),
{
    configure_with(dir, compile(pattern), filter, colorize)
}

/// The item that is taken next from the work that is left.
pub open spec fn next_item(pending: Seq<WorkItem>) -> Option<WorkItem> {
    if pending.len() > 0 {
        Some(pending.last())
    } else {
        None
    }
}

/// The work that is left once the next item is taken.
pub open spec fn rest_of(pending: Seq<WorkItem>) -> Seq<WorkItem> {
    if pending.len() > 0 {
        pending.drop_last()
    } else {
        pending
    }
}

/// The work that a listing adds: its items, the first of them last.
pub open spec fn listed_work(listing: Result<Vec<WorkItem>, String>) -> Seq<WorkItem> {
    match listing {
        Ok(items) => items@.reverse(),
        Err(_) => Seq::empty(),
    }
}

/// The report on a listing of `dir` that failed.
pub open spec fn listing_problem(
    dir: Located,
    listing: Result<Vec<WorkItem>, String>,
) -> Option<Diagnostic> {
    match listing {
        Ok(_) => None,
        Err(cause) => Some(Diagnostic::Listing { path: dir.path, cause }),
    }
}

impl Walker {
    /// The configuration of the search.
    pub closed spec fn config(&self) -> SearchConfig {
        self.config
    }

    /// The work that is left, the next item last.
    pub closed spec fn pending(&self) -> Seq<WorkItem> {
        self.pending@
    }

    /// A walk that has `root` before it and nothing else.
    pub fn new(config: SearchConfig, root: WorkItem) -> (walker: Walker)
        ensures
            walker.config() == config,
            walker.pending() == seq![root],
    {
        let mut pending = Vec::new();
        pending.push(root);
        Walker { config, pending }
    }

    /// What [`Walker::begin`] answers to each outcome of the check that
    /// the root directory exists.
    pub open spec fn begun(
        config: SearchConfig,
        exists: Result<bool, String>,
        root: WorkItem,
        r: Result<Walker, SetupError>,
    ) -> bool {
        match exists {
            Ok(true) => r matches Ok(walker) && walker.config() == config && walker.pending()
                == seq![root],
            Ok(false) => r matches Err(error) && error == (SetupError::MissingRoot {
                dir: config.dir,
            }),
            Err(cause) => r matches Err(error) && error == (SetupError::UnreadableRoot {
                dir: config.dir,
                cause,
            }),
        }
    }

    /// Starts a walk at `root`, given the outcome of the check that the
    /// root directory exists: `Ok(false)` where it does not, `Err` with
    /// the cause where the check itself failed. Only a root that exists
    /// is walked.
    pub fn begin(
        config: SearchConfig,
        exists: Result<bool, String>,
        root: WorkItem,
    ) -> (r: Result<Walker, SetupError>)
        ensures
            Walker::begun(config, exists, root, r),
    {
        match exists {
            Ok(true) => Ok(Walker::new(config, root)),
            Ok(false) => Err(SetupError::MissingRoot { dir: config.dir }),
            Err(cause) => Err(SetupError::UnreadableRoot { dir: config.dir, cause }),
        }
    }

    /// Takes the next item of work, or tells that the walk is over.
    pub fn next(&mut self) -> (item: Option<WorkItem>)
        ensures
            final(self).config() == old(self).config(),
            item == next_item(old(self).pending()),
            final(self).pending() == rest_of(old(self).pending()),
    {
        self.pending.pop()
    }

    /// Holds the entry's name against the pattern and decides what the
    /// visit prints and whether the entry's children are to be listed.
    pub fn visit(&self, at: &Located, facts: &Facts) -> (verdict: Verdict)
        ensures
            printed(verdict.emission) == emitted(
                self.config().filter,
                self.config().colorize,
                name_match(self.config().pattern, at.name@),
                *at,
                *facts,
            ),
            verdict.descend == facts.descends(),
    {
        let found = find_in_name(&self.config.pattern, at.name.as_str());
        decide(self.config.filter, self.config.colorize, found, at, facts)
    }

    /// Takes in the listing of the directory `dir`. A listing that failed
    /// is reported and nothing is added. Else each item of it becomes work,
    /// to be taken in the order of the listing, before what was pending.
    pub fn listed(
        &mut self,
        dir: &Located,
        listing: Result<Vec<WorkItem>, String>,
    ) -> (problem: Option<Diagnostic>)
        ensures
            final(self).config() == old(self).config(),
            final(self).pending() == old(self).pending() + listed_work(listing),
            problem == listing_problem(*dir, listing),
    {
        match listing {
            Err(cause) => Some(Diagnostic::Listing { path: dir.path.clone(), cause }),
            Ok(items) => {
                let mut items = items;
                let ghost all = items@;
                while items.len() > 0
                    invariant
                        self.config() == old(self).config(),
                        items@.len() <= all.len(),
                        items@ == all.take(items@.len() as int),
                        self.pending() == old(self).pending() + all.skip(
                            items@.len() as int,
                        ).reverse(),
                    decreases items@.len(),
                {
                    let item = items.pop().unwrap();
                    self.pending.push(item);
                    proof {
                        let n = items@.len() as int;
                        assert(all.skip(n) =~= seq![all[n]] + all.skip(n + 1));
                        assert(all.skip(n).reverse() =~= all.skip(n + 1).reverse().push(all[n]));
                    }
                }
                proof {
                    assert(all.skip(0) =~= all);
                }
                None
            },
        }
    }
}

} // verus!

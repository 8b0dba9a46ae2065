//! What the search does with one entry.

use crate::diagnostic::{Diagnostic, Emission, Printed};
use crate::filter::{should_descend, type_satisfies, Facts, FilterType};
use crate::pattern::MatchSpan;
use crate::render::{render_match, rendered};
use vstd::prelude::*;
use vstd::string::*;

verus! {

/// An entry whose name is known.
#[derive(Debug, PartialEq, Eq)]
pub struct Located {
    /// The path of the entry, as the file system takes it.
    pub path: String,
    /// The path of the directory that holds the entry.
    pub parent: String,
    /// The final component of the path.
    pub name: String,
}

impl Located {
    /// A second copy of this entry's place and name.
    pub fn duplicate(&self) -> (copy: Located)
        ensures
            copy == *self,
    {
        Located { path: self.path.clone(), parent: self.parent.clone(), name: self.name.clone() }
    }
}

/// What one visit comes to.
#[derive(Debug, PartialEq, Eq)]
pub struct Verdict {
    /// The line to print, if there is one.
    pub emission: Option<Emission>,
    /// Whether the entry's children are to be listed and visited.
    pub descend: bool,
}

/// What an emission, if any, puts on which stream.
pub open spec fn printed(emission: Option<Emission>) -> Option<Printed> {
    match emission {
        Some(e) => Some(e@),
        None => None,
    }
}

/// What a visit prints. Without a match, nothing. With one, and the
/// device filter, a failed metadata lookup is reported, and the entry
/// counts as not selected. Else the path is printed where the entry's
/// type satisfies the filter.
pub open spec fn emitted(
    filter: FilterType,
    colorize: bool,
    found: Option<MatchSpan>,
    at: Located,
    facts: Facts,
) -> Option<Printed> {
    match found {
        None => None,
        Some(span) => match facts.target {
            Err(cause) if filter is Device => Some(
                Printed::Problem(Diagnostic::Metadata { path: at.path, cause }.text()),
            ),
            _ => if facts.satisfies(filter) {
                Some(Printed::Match(rendered(at.parent@, at.name@, span, colorize)))
            } else {
                None
            },
        },
    }
}

/// The visit prints the entry's path.
pub open spec fn prints_path(printed: Option<Printed>) -> bool {
    printed matches Some(line) && line is Match
}

/// A path is printed if and only if the name matches and the entry's type
/// satisfies the filter: under `Folder` only for a directory, under `Text`
/// only for a regular file that is no link, under `Symlink` only for a
/// link, under `Device` only for a character or block device, and under
/// `Any` for every entry whose name matches. The line is then the one for
/// the match.
pub proof fn lemma_path_printed_iff_selected(
    filter: FilterType,
    colorize: bool,
    found: Option<MatchSpan>,
    at: Located,
    facts: Facts,
)
    ensures
        prints_path(emitted(filter, colorize, found, at, facts)) <==> found is Some
            && facts.satisfies(filter),
        prints_path(emitted(filter, colorize, found, at, facts)) ==> emitted(
            filter,
            colorize,
            found,
            at,
            facts,
        ) == Some(Printed::Match(rendered(at.parent@, at.name@, found->0, colorize))),
        filter is Folder ==> (facts.satisfies(filter) <==> facts.is_dir()),
        filter is Text ==> (facts.satisfies(filter) <==> facts.is_file() && !facts.is_symlink),
        filter is Symlink ==> (facts.satisfies(filter) <==> facts.is_symlink),
        filter is Device ==> (facts.satisfies(filter) <==> facts.is_device()),
        filter is Any ==> facts.satisfies(filter),
{
}

/// Decides what a visit prints and whether the walk descends, from the
/// outcome of the search in the entry's name.
pub fn decide(
    filter: FilterType,
    colorize: bool,
    found: Option<MatchSpan>,
    at: &Located,
    facts: &Facts,
) -> (verdict: Verdict)
    requires
        found matches Some(span) ==> span.fits(at.name@),
    ensures
        printed(verdict.emission) == emitted(filter, colorize, found, *at, *facts),
        verdict.descend == facts.descends(),
{
    let descend = should_descend(facts);
    let emission = match found {
        None => None,
        Some(span) => {
            let failure = match (filter, &facts.target) {
                (FilterType::Device, Err(cause)) => Some(
                    Diagnostic::Metadata { path: at.path.clone(), cause: cause.clone() },
                ),
                _ => None,
            };
            match failure {
                Some(problem) => Some(Emission::Problem(problem)),
                None => if type_satisfies(filter, facts) {
                    Some(
                        Emission::Match(
                            render_match(at.parent.as_str(), at.name.as_str(), span, colorize),
                        ),
                    )
                } else {
                    None
                },
            }
        },
    };
    Verdict { emission, descend }
}

} // verus!

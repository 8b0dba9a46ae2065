//! A directory tree held in memory, and the walk over it.

use crate::diagnostic::{Diagnostic, Emission, Printed};
use crate::filter::Facts;
use crate::pattern::name_match;
use crate::visit::{emitted, Located};
use crate::walker::{SearchConfig, Walker, WorkItem};
use vstd::prelude::*;

verus! {

/// An entry of the tree, with what the file system tells of it.
#[derive(Debug, PartialEq, Eq)]
pub struct Node {
    /// Where the entry is and what it is called.
    pub at: Located,
    /// What is known of its type.
    pub facts: Facts,
    /// What listing the entry as a directory gives: its children in the
    /// order of the listing, or the reason the listing failed.
    pub listing: Result<Vec<Branch>, String>,
}

/// One place in the tree: the root, or a place in a listing.
#[derive(Debug, PartialEq, Eq)]
pub enum Branch {
    /// An entry whose name could be read.
    Entry(Node),
    /// An entry that can only be reported.
    Broken(Diagnostic),
}

/// The places that the walk comes to from `branch`, in the order in which
/// it comes to them: the place itself, then, where it is an entry that
/// the walk descends into, the places that the walk comes to from its
/// listing.
pub open spec fn branch_reach(branch: Branch) -> Seq<Branch>
    decreases branch,
{
    match branch {
        Branch::Entry(node) => seq![branch] + node_below(node),
        Branch::Broken(_) => seq![branch],
    }
}

/// The places that the walk comes to below `node`. There are none unless
/// the node is a directory, is no link, and could be listed.
pub open spec fn node_below(node: Node) -> Seq<Branch>
    decreases node,
{
    if node.facts.descends() {
        match node.listing {
            Ok(branches) => branches_reach(branches@),
            Err(_) => Seq::empty(),
        }
    } else {
        Seq::empty()
    }
}

/// The places that the walk comes to from a listing: those from its first
/// place, then those from the rest.
pub open spec fn branches_reach(branches: Seq<Branch>) -> Seq<Branch>
    decreases branches,
{
    if branches.len() == 0 {
        Seq::empty()
    } else {
        branch_reach(branches.first()) + branches_reach(branches.drop_first())
    }
}

/// What the visit of `node` prints.
pub open spec fn own_trace(config: SearchConfig, node: Node) -> Seq<Printed> {
    match emitted(
        config.filter,
        config.colorize,
        name_match(config.pattern, node.at.name@),
        node.at,
        node.facts,
    ) {
        Some(line) => seq![line],
        None => Seq::empty(),
    }
}

/// What the walk prints at one place, whatever is around it. An entry
/// that can only be reported is reported. An entry is visited, and where
/// the walk would descend into it and its listing failed, that is
/// reported.
pub open spec fn place_trace(config: SearchConfig, branch: Branch) -> Seq<Printed> {
    match branch {
        Branch::Broken(problem) => seq![Printed::Problem(problem.text())],
        Branch::Entry(node) => own_trace(config, node) + (match node.listing {
            Err(cause) if node.facts.descends() => seq![
                Printed::Problem(Diagnostic::Listing { path: node.at.path, cause }.text()),
            ],
            _ => Seq::empty(),
        }),
    }
}

/// What the walk prints at a run of places.
pub open spec fn trace_of(config: SearchConfig, places: Seq<Branch>) -> Seq<Printed>
    decreases places.len(),
{
    if places.len() == 0 {
        Seq::empty()
    } else {
        place_trace(config, places.first()) + trace_of(config, places.drop_first())
    }
}

/// The paths of the entries that are visited at a run of places.
pub open spec fn visits_of(places: Seq<Branch>) -> Seq<String>
    decreases places.len(),
{
    if places.len() == 0 {
        Seq::empty()
    } else {
        (match places.first() {
            Branch::Entry(node) => seq![node.at.path],
            Branch::Broken(_) => Seq::empty(),
        }) + visits_of(places.drop_first())
    }
}

/// The places that the walk comes to from two listings, one after the
/// other, are those from the first and then those from the second.
pub proof fn lemma_reach_concatenates(first: Seq<Branch>, second: Seq<Branch>)
    ensures
        branches_reach(first + second) == branches_reach(first) + branches_reach(second),
    decreases first.len(),
{
    if first.len() == 0 {
        assert(first + second =~= second);
    } else {
        assert((first + second).drop_first() =~= first.drop_first() + second);
        lemma_reach_concatenates(first.drop_first(), second);
    }
}

/// What the walk prints at two runs of places, one after the other, is
/// what it prints at the first and then what it prints at the second.
pub proof fn lemma_trace_concatenates(config: SearchConfig, first: Seq<Branch>, second: Seq<Branch>)
    ensures
        trace_of(config, first + second) == trace_of(config, first) + trace_of(config, second),
    decreases first.len(),
{
    if first.len() == 0 {
        assert(first + second =~= second);
    } else {
        assert((first + second).drop_first() =~= first.drop_first() + second);
        lemma_trace_concatenates(config, first.drop_first(), second);
    }
}

/// The visits at two runs of places, one after the other, are those at
/// the first and then those at the second.
pub proof fn lemma_visits_concatenate(first: Seq<Branch>, second: Seq<Branch>)
    ensures
        visits_of(first + second) == visits_of(first) + visits_of(second),
    decreases first.len(),
{
    if first.len() == 0 {
        assert(first + second =~= second);
    } else {
        assert((first + second).drop_first() =~= first.drop_first() + second);
        lemma_visits_concatenate(first.drop_first(), second);
    }
}

/// The item of work that a place stands for.
pub open spec fn work_of(branch: Branch) -> WorkItem {
    match branch {
        Branch::Entry(node) => WorkItem::Visit(node.at),
        Branch::Broken(problem) => WorkItem::Report(problem),
    }
}

/// The items of work that a listing stands for.
pub open spec fn works_of(branches: Seq<Branch>) -> Seq<WorkItem> {
    Seq::new(branches.len(), |i: int| work_of(branches[i]))
}

/// What a run of emissions puts on the two streams.
pub open spec fn printed_all(emissions: Seq<Emission>) -> Seq<Printed> {
    Seq::new(emissions.len(), |i: int| emissions[i]@)
}

impl Branch {
    /// The item of work that this place stands for.
    pub fn work_item(&self) -> (item: WorkItem)
        ensures
            item == work_of(*self),
    {
        match self {
            Branch::Entry(node) => WorkItem::Visit(node.at.duplicate()),
            Branch::Broken(problem) => WorkItem::Report(problem.duplicate()),
        }
    }
}

/// The items of work that a listing stands for, in its order.
pub fn work_items(branches: &Vec<Branch>) -> (items: Vec<WorkItem>)
    ensures
        items@ == works_of(branches@),
{
    let mut items: Vec<WorkItem> = Vec::new();
    let mut i: usize = 0;
    while i < branches.len()
        invariant
            i <= branches.len(),
            items@ == works_of(branches@.take(i as int)),
        decreases branches.len() - i,
    {
        items.push(branches[i].work_item());
        i = i + 1;
        assert(items@ =~= works_of(branches@.take(i as int)));
    }
    assert(branches@.take(i as int) =~= branches@);
    items
}

/// What a walk over a tree in memory gave.
#[derive(Debug, PartialEq, Eq)]
pub struct Walk {
    /// The lines that the walk printed, in order.
    pub emissions: Vec<Emission>,
    /// The paths of the entries that the walk visited, in order.
    pub visited: Vec<String>,
}

/// The places on a stack in the order in which they are taken off: the
/// last first.
spec fn turns(stack: Seq<&Branch>) -> Seq<Branch> {
    Seq::new(stack.len(), |i: int| *stack[stack.len() - 1 - i])
}

/// The places on a stack from the bottom up.
spec fn held(stack: Seq<&Branch>) -> Seq<Branch> {
    Seq::new(stack.len(), |i: int| *stack[i])
}

/// Puts the places of a listing on the stack, the first of them on top.
fn stack_listing<'a>(stack: &mut Vec<&'a Branch>, listing: &'a Vec<Branch>)
    ensures
        turns(final(stack)@) == listing@ + turns(old(stack)@),
        held(final(stack)@) == held(old(stack)@) + listing@.reverse(),
{
    let mut k: usize = listing.len();
    while k > 0
        invariant
            k <= listing.len(),
            stack@ == old(stack)@ + Seq::new(
                (listing.len() - k) as nat,
                |j: int| &listing@[listing.len() - 1 - j],
            ),
        decreases k,
    {
        k = k - 1;
        stack.push(&listing[k]);
    }
    assert(turns(stack@) =~= listing@ + turns(old(stack)@));
    assert(held(stack@) =~= held(old(stack)@) + listing@.reverse());
}

/// Walks the tree under `root` by driving a [`Walker`] with what the tree
/// holds. The walk comes to the places of the tree in pre-order, leaves
/// out what lies below a link, below anything that is no directory and
/// below a directory that could not be listed, and prints at each place
/// what is due there.
pub fn walk_snapshot(config: SearchConfig, root: &Branch) -> (walk: Walk)
    ensures
        printed_all(walk.emissions@) == trace_of(config, branch_reach(*root)),
        walk.visited@ == visits_of(branch_reach(*root)),
{
    let mut walker = Walker::new(config, root.work_item());
    let mut stack: Vec<&Branch> = Vec::new();
    stack.push(root);
    let mut emissions: Vec<Emission> = Vec::new();
    let mut visited: Vec<String> = Vec::new();
    proof {
        assert(turns(stack@) =~= seq![*root]);
        assert(turns(stack@).drop_first() =~= Seq::<Branch>::empty());
        assert(branches_reach(turns(stack@).drop_first()) =~= Seq::<Branch>::empty());
        assert(branches_reach(turns(stack@)) =~= branch_reach(*root));
        assert(walker.pending() =~= works_of(held(stack@)));
        assert(printed_all(emissions@) =~= Seq::<Printed>::empty());
    }
    while stack.len() > 0
        invariant
            walker.config() == config,
            walker.pending() == works_of(held(stack@)),
            printed_all(emissions@) + trace_of(config, branches_reach(turns(stack@))) == trace_of(
                config,
                branch_reach(*root),
            ),
            visited@ + visits_of(branches_reach(turns(stack@))) == visits_of(branch_reach(*root)),
        decreases branches_reach(turns(stack@)).len(),
    {
        let ghost before = stack@;
        let ghost printed_before = printed_all(emissions@);
        let branch = stack.pop().unwrap();
        let item = walker.next();
        let ghost below = branch_reach(*branch).drop_first();
        let ghost after = branches_reach(turns(stack@));
        proof {
            assert(turns(before).first() == *branch);
            assert(turns(before).drop_first() =~= turns(stack@));
            assert(branches_reach(turns(before)) == branch_reach(*branch) + after);
            assert(branch_reach(*branch) =~= seq![*branch] + below);
            lemma_trace_concatenates(config, branch_reach(*branch), after);
            lemma_trace_concatenates(config, seq![*branch], below);
            lemma_visits_concatenate(branch_reach(*branch), after);
            lemma_visits_concatenate(seq![*branch], below);
            assert(seq![*branch].drop_first() =~= Seq::<Branch>::empty());
            assert(trace_of(config, seq![*branch]) =~= place_trace(config, *branch));
            assert(walker.pending() =~= works_of(held(stack@)));
            assert(item == Some(work_of(*branch)));
        }
        match item {
            // The walker holds an item for each place on the stack.
            None => {},
            Some(WorkItem::Report(problem)) => {
                emissions.push(Emission::Problem(problem));
                proof {
                    assert(below =~= Seq::<Branch>::empty());
                    assert(printed_all(emissions@) =~= printed_before + place_trace(
                        config,
                        *branch,
                    ));
                }
            },
            Some(WorkItem::Visit(at)) => {
                match branch {
                    // The item that the walker holds for such a place is a report.
                    Branch::Broken(_) => {},
                    Branch::Entry(node) => {
                        visited.push(at.path.clone());
                        let verdict = walker.visit(&at, &node.facts);
                        let descend = verdict.descend;
                        match verdict.emission {
                            Some(emission) => {
                                emissions.push(emission);
                            },
                            None => {},
                        }
                        proof {
                            assert(printed_all(emissions@) =~= printed_before + own_trace(
                                config,
                                *node,
                            ));
                            assert(below == node_below(*node));
                        }
                        if descend {
                            match &node.listing {
                                Err(cause) => {
                                    let ghost printed_own = printed_all(emissions@);
                                    match walker.listed(&at, Err(cause.clone())) {
                                        Some(problem) => {
                                            emissions.push(Emission::Problem(problem));
                                        },
                                        None => {},
                                    }
                                    proof {
                                        assert(printed_all(emissions@) =~= printed_own.push(
                                            Printed::Problem(
                                                Diagnostic::Listing {
                                                    path: node.at.path,
                                                    cause: *cause,
                                                }.text(),
                                            ),
                                        ));
                                    }
                                },
                                Ok(branches) => {
                                    let ghost rest = stack@;
                                    walker.listed(&at, Ok(work_items(branches)));
                                    stack_listing(&mut stack, branches);
                                    proof {
                                        assert(works_of(held(stack@)) =~= works_of(held(rest))
                                            + works_of(branches@).reverse());
                                        lemma_reach_concatenates(branches@, turns(rest));
                                        lemma_trace_concatenates(config, below, after);
                                        lemma_visits_concatenate(below, after);
                                    }
                                },
                            }
                        }
                    },
                }
            },
        }
    }
    proof {
        assert(turns(stack@) =~= Seq::<Branch>::empty());
    }
    Walk { emissions, visited }
}

} // verus!

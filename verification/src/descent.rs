//! Which places of a tree the walk can come to, and that it comes to each
//! of them once.

use crate::diagnostic::{Diagnostic, Printed};
use crate::selection::{
    lemma_matches_concatenate, lemma_output_is_selection, matches_in, selection,
};
use crate::snapshot::{
    branch_reach, branches_reach, lemma_reach_concatenates, lemma_trace_concatenates,
    lemma_visits_concatenate, own_trace, trace_of, visits_of, Branch, Node,
};
use crate::walker::SearchConfig;
use vstd::prelude::*;

verus! {

/// The place at which a descent from `branch` along `steps` ends. A step
/// names a place in the listing of the entry that the descent has come
/// to. It can be taken only where that entry is a directory and no link,
/// and its listing could be read.
pub open spec fn place_at(branch: Branch, steps: Seq<int>) -> Option<Branch>
    decreases steps.len(),
{
    if steps.len() == 0 {
        Some(branch)
    } else {
        match branch {
            Branch::Entry(entry) => match entry.listing {
                Ok(listing) if entry.facts.descends() && 0 <= steps[0] < listing.len() => place_at(
                    listing[steps[0]],
                    steps.drop_first(),
                ),
                _ => None,
            },
            Branch::Broken(_) => None,
        }
    }
}

/// The number of places that the walk from `branch` comes to before the
/// place at which the descent along `steps` ends.
pub open spec fn rank(branch: Branch, steps: Seq<int>) -> int
    decreases steps.len(),
{
    if steps.len() == 0 {
        0
    } else {
        match branch {
            Branch::Entry(entry) => match entry.listing {
                Ok(listing) => 1 + branches_reach(listing@.take(steps[0])).len() + rank(
                    listing[steps[0]],
                    steps.drop_first(),
                ),
                Err(_) => 0,
            },
            Branch::Broken(_) => 0,
        }
    }
}

/// Some descent ends at the `index`th place of the walk from `root`.
pub open spec fn ends_descent(root: Branch, index: int) -> bool {
    exists|steps: Seq<int>|
        place_at(root, steps) == Some(branch_reach(root)[index]) && #[trigger] rank(root, steps)
            == index
}

/// The walk over a listing with one place is the walk from that place.
proof fn lemma_reach_of_one(branch: Branch)
    ensures
        branches_reach(seq![branch]) == branch_reach(branch),
{
    assert(seq![branch].drop_first() =~= Seq::<Branch>::empty());
    assert(branches_reach(seq![branch].drop_first()) =~= Seq::<Branch>::empty());
    assert(branches_reach(seq![branch]) =~= branch_reach(branch));
}

/// The walk over the first places of a listing, and over one more.
proof fn lemma_reach_of_prefix(listing: Seq<Branch>, from: int, to: int)
    requires
        0 <= from <= to <= listing.len(),
    ensures
        branches_reach(listing.take(to)) == branches_reach(listing.take(from)) + branches_reach(
            listing.subrange(from, to),
        ),
        to < listing.len() ==> branches_reach(listing.take(to + 1)) == branches_reach(
            listing.take(to),
        ) + branch_reach(listing[to]),
        branches_reach(listing) == branches_reach(listing.take(to)) + branches_reach(
            listing.skip(to),
        ),
{
    assert(listing.take(to) =~= listing.take(from) + listing.subrange(from, to));
    lemma_reach_concatenates(listing.take(from), listing.subrange(from, to));
    if to < listing.len() {
        assert(listing.take(to + 1) =~= listing.take(to) + seq![listing[to]]);
        lemma_reach_concatenates(listing.take(to), seq![listing[to]]);
        lemma_reach_of_one(listing[to]);
    }
    assert(listing =~= listing.take(to) + listing.skip(to));
    lemma_reach_concatenates(listing.take(to), listing.skip(to));
}

/// The walk comes to the place at which a descent ends, after as many
/// places as the rank of the descent says.
pub proof fn lemma_descent_is_walked(root: Branch, steps: Seq<int>)
    requires
        place_at(root, steps) is Some,
    ensures
        0 <= rank(root, steps) < branch_reach(root).len(),
        branch_reach(root)[rank(root, steps)] == place_at(root, steps)->0,
    decreases steps.len(),
{
    if steps.len() > 0 {
        match root {
            Branch::Entry(entry) => match entry.listing {
                Ok(listing) => {
                    let at = steps[0];
                    lemma_descent_is_walked(listing[at], steps.drop_first());
                    lemma_reach_of_prefix(listing@, at, at);
                    lemma_reach_of_prefix(listing@, at, at + 1);
                },
                Err(_) => {},
            },
            Branch::Broken(_) => {},
        }
    }
}

/// Two descents that end after the same number of places are one descent.
pub proof fn lemma_rank_tells_descents_apart(root: Branch, one: Seq<int>, other: Seq<int>)
    requires
        place_at(root, one) is Some,
        place_at(root, other) is Some,
        rank(root, one) == rank(root, other),
    ensures
        one == other,
    decreases one.len(),
{
    lemma_descent_is_walked(root, one);
    lemma_descent_is_walked(root, other);
    if one.len() == 0 || other.len() == 0 {
        if one.len() > 0 || other.len() > 0 {
            let longer = if one.len() > 0 {
                one
            } else {
                other
            };
            match root {
                Branch::Entry(entry) => match entry.listing {
                    Ok(listing) => {
                        lemma_descent_is_walked(listing[longer[0]], longer.drop_first());
                    },
                    Err(_) => {},
                },
                Branch::Broken(_) => {},
            }
        }
        assert(one =~= other);
    } else {
        match root {
            Branch::Entry(entry) => match entry.listing {
                Ok(listing) => {
                    let a = one[0];
                    let b = other[0];
                    lemma_descent_is_walked(listing[a], one.drop_first());
                    lemma_descent_is_walked(listing[b], other.drop_first());
                    if a < b {
                        lemma_reach_of_prefix(listing@, a, a);
                        lemma_reach_of_prefix(listing@, a + 1, b);
                    } else if b < a {
                        lemma_reach_of_prefix(listing@, b, b);
                        lemma_reach_of_prefix(listing@, b + 1, a);
                    } else {
                        lemma_rank_tells_descents_apart(
                            listing[a],
                            one.drop_first(),
                            other.drop_first(),
                        );
                        assert(one =~= seq![a] + one.drop_first());
                        assert(other =~= seq![b] + other.drop_first());
                    }
                },
                Err(_) => {},
            },
            Branch::Broken(_) => {},
        }
    }
}

/// Finds the place of a listing from which the walk comes to its `index`th
/// place, and how far into the walk from there that is.
proof fn lemma_locate_in_listing(listing: Seq<Branch>, index: int) -> (found: (int, int))
    requires
        0 <= index < branches_reach(listing).len(),
    ensures
        0 <= found.0 < listing.len(),
        0 <= found.1 < branch_reach(listing[found.0]).len(),
        index == branches_reach(listing.take(found.0)).len() + found.1,
    decreases listing.len(),
{
    let first = branch_reach(listing.first());
    if index < first.len() {
        assert(listing.take(0) =~= Seq::<Branch>::empty());
        (0, index)
    } else {
        let rest = listing.drop_first();
        let (at, within) = lemma_locate_in_listing(rest, index - first.len());
        assert(listing.take(at + 1) =~= seq![listing.first()] + rest.take(at));
        lemma_reach_concatenates(seq![listing.first()], rest.take(at));
        lemma_reach_of_one(listing.first());
        (at + 1, within)
    }
}

/// Finds a descent that ends at the `index`th place of the walk.
proof fn lemma_descent_to(root: Branch, index: int) -> (steps: Seq<int>)
    requires
        0 <= index < branch_reach(root).len(),
    ensures
        place_at(root, steps) is Some,
        rank(root, steps) == index,
    decreases root,
{
    if index == 0 {
        Seq::empty()
    } else {
        match root {
            Branch::Entry(entry) => match entry.listing {
                Ok(listing) => {
                    let (at, within) = lemma_locate_in_listing(listing@, index - 1);
                    let tail = lemma_descent_to(listing[at], within);
                    let steps = seq![at] + tail;
                    assert(steps.drop_first() =~= tail);
                    steps
                },
                Err(_) => Seq::empty(),
            },
            Branch::Broken(_) => Seq::empty(),
        }
    }
}

/// The walk comes to every place that a descent without links can reach,
/// and to each once: the places of the walk and the descents that can be
/// taken stand one to one, each descent ending at the place of the walk
/// that its rank gives.
pub proof fn lemma_each_place_once(root: Branch)
    ensures
        forall|steps: Seq<int>|
            (#[trigger] place_at(root, steps)) is Some ==> 0 <= rank(root, steps) < branch_reach(
                root,
            ).len() && branch_reach(root)[rank(root, steps)] == place_at(root, steps)->0,
        forall|one: Seq<int>, other: Seq<int>|
            place_at(root, one) is Some && place_at(root, other) is Some && #[trigger] rank(
                root,
                one,
            ) == #[trigger] rank(root, other) ==> one == other,
        forall|index: int|
            0 <= index < branch_reach(root).len() ==> #[trigger] ends_descent(root, index),
{
    assert forall|steps: Seq<int>| (#[trigger] place_at(root, steps)) is Some implies 0 <= rank(
        root,
        steps,
    ) < branch_reach(root).len() && branch_reach(root)[rank(root, steps)] == place_at(
        root,
        steps,
    )->0 by {
        lemma_descent_is_walked(root, steps);
    }
    assert forall|one: Seq<int>, other: Seq<int>|
        place_at(root, one) is Some && place_at(root, other) is Some && #[trigger] rank(root, one)
            == #[trigger] rank(root, other) implies one == other by {
        lemma_rank_tells_descents_apart(root, one, other);
    }
    assert forall|index: int| 0 <= index < branch_reach(root).len() implies #[trigger] ends_descent(
        root,
        index,
    ) by {
        let steps = lemma_descent_to(root, index);
        lemma_descent_is_walked(root, steps);
        assert(place_at(root, steps) == Some(branch_reach(root)[index]) && rank(root, steps)
            == index);
    }
}

/// The number of visits that the walk from `root` pays before it comes to
/// the place at which the descent along `steps` ends.
pub open spec fn visit_rank(root: Branch, steps: Seq<int>) -> int {
    visits_of(branch_reach(root).take(rank(root, steps))).len() as int
}

/// The descent along `steps` from `root` ends at an entry.
pub open spec fn ends_at_entry(root: Branch, steps: Seq<int>) -> bool {
    place_at(root, steps) matches Some(place) && place is Entry
}

/// Some descent that ends at an entry is paid the `visit`th visit of the
/// walk from `root`.
pub open spec fn pays_descent(root: Branch, visit: int) -> bool {
    exists|steps: Seq<int>| ends_at_entry(root, steps) && #[trigger] visit_rank(root, steps) == visit
}

/// An entry among a run of places is visited, after as many visits as
/// there are entries before it.
proof fn lemma_entry_is_visited(places: Seq<Branch>, index: int)
    requires
        0 <= index < places.len(),
        places[index] is Entry,
    ensures
        visits_of(places.take(index)).len() < visits_of(places).len(),
        visits_of(places)[visits_of(places.take(index)).len() as int] == places[index]->Entry_0.at.path,
{
    let rest = places.skip(index);
    assert(places =~= places.take(index) + rest);
    lemma_visits_concatenate(places.take(index), rest);
    assert(rest.first() == places[index]);
    assert(visits_of(rest)[0] == places[index]->Entry_0.at.path);
}

/// The visits before a later place are more than those before an entry.
proof fn lemma_visits_grow(places: Seq<Branch>, entry: int, later: int)
    requires
        0 <= entry < later <= places.len(),
        places[entry] is Entry,
    ensures
        visits_of(places.take(entry)).len() < visits_of(places.take(later)).len(),
{
    let front = places.take(later);
    assert(front.take(entry) =~= places.take(entry));
    lemma_entry_is_visited(front, entry);
}

/// Finds the entry among a run of places that is paid the `visit`th
/// visit.
proof fn lemma_visit_has_entry(places: Seq<Branch>, visit: int) -> (index: int)
    requires
        0 <= visit < visits_of(places).len(),
    ensures
        0 <= index < places.len(),
        places[index] is Entry,
        visits_of(places.take(index)).len() == visit,
    decreases places.len(),
{
    let rest = places.drop_first();
    assert(places.take(0) =~= Seq::<Branch>::empty());
    if places.first() is Entry && visit == 0 {
        0
    } else {
        let own: int = if places.first() is Entry {
            1
        } else {
            0
        };
        let found = lemma_visit_has_entry(rest, visit - own);
        assert(places.take(found + 1) =~= seq![places.first()] + rest.take(found));
        lemma_visits_concatenate(seq![places.first()], rest.take(found));
        assert(seq![places.first()].drop_first() =~= Seq::<Branch>::empty());
        assert(visits_of(seq![places.first()].drop_first()) =~= Seq::<String>::empty());
        assert(visits_of(seq![places.first()]).len() == own);
        found + 1
    }
}

/// The walk visits every entry that a descent without links can reach,
/// and each once: the visits of the walk and the descents that end at an
/// entry stand one to one, each such descent being paid the visit that
/// its rank among the visits gives, with the path of its entry.
pub proof fn lemma_each_entry_visited_once(root: Branch)
    ensures
        forall|steps: Seq<int>| #[trigger]
            ends_at_entry(root, steps) ==> 0 <= visit_rank(root, steps) < visits_of(
                branch_reach(root),
            ).len() && visits_of(branch_reach(root))[visit_rank(root, steps)] == place_at(
                root,
                steps,
            )->0->Entry_0.at.path,
        forall|one: Seq<int>, other: Seq<int>|
            ends_at_entry(root, one) && ends_at_entry(root, other) && #[trigger] visit_rank(
                root,
                one,
            ) == #[trigger] visit_rank(root, other) ==> one == other,
        forall|visit: int|
            0 <= visit < visits_of(branch_reach(root)).len() ==> #[trigger] pays_descent(
                root,
                visit,
            ),
{
    let places = branch_reach(root);
    assert forall|steps: Seq<int>| #[trigger] ends_at_entry(root, steps) implies 0 <= visit_rank(
        root,
        steps,
    ) < visits_of(places).len() && visits_of(places)[visit_rank(root, steps)] == place_at(
        root,
        steps,
    )->0->Entry_0.at.path by {
        lemma_descent_is_walked(root, steps);
        lemma_entry_is_visited(places, rank(root, steps));
    }
    assert forall|one: Seq<int>, other: Seq<int>|
        ends_at_entry(root, one) && ends_at_entry(root, other) && #[trigger] visit_rank(root, one)
            == #[trigger] visit_rank(root, other) implies one == other by {
        lemma_descent_is_walked(root, one);
        lemma_descent_is_walked(root, other);
        if rank(root, one) < rank(root, other) {
            lemma_visits_grow(places, rank(root, one), rank(root, other));
        } else if rank(root, other) < rank(root, one) {
            lemma_visits_grow(places, rank(root, other), rank(root, one));
        } else {
            lemma_rank_tells_descents_apart(root, one, other);
        }
    }
    assert forall|visit: int| 0 <= visit < visits_of(places).len() implies #[trigger] pays_descent(
        root,
        visit,
    ) by {
        let index = lemma_visit_has_entry(places, visit);
        let steps = lemma_descent_to(root, index);
        lemma_descent_is_walked(root, steps);
        assert(ends_at_entry(root, steps) && visit_rank(root, steps) == visit);
    }
}

/// A link is visited and held against the pattern and the filter as any
/// other entry, and the walk comes to nothing below it.
pub proof fn lemma_link_is_not_followed(config: SearchConfig, link: Node)
    requires
        link.facts.is_symlink,
    ensures
        branch_reach(Branch::Entry(link)) == seq![Branch::Entry(link)],
        trace_of(config, branch_reach(Branch::Entry(link))) == own_trace(config, link),
        visits_of(branch_reach(Branch::Entry(link))) == seq![link.at.path],
{
    let place = Branch::Entry(link);
    assert(branch_reach(place) =~= seq![place]);
    assert(seq![place].drop_first() =~= Seq::<Branch>::empty());
    assert(trace_of(config, seq![place].drop_first()) =~= Seq::<Printed>::empty());
    assert(visits_of(seq![place].drop_first()) =~= Seq::<String>::empty());
    assert(trace_of(config, seq![place]) =~= own_trace(config, link));
    assert(visits_of(seq![place]) =~= seq![link.at.path]);
}

/// An entry whose name could not be read is reported, with one line on
/// the diagnostic stream and none on the output stream, and is not
/// visited.
pub proof fn lemma_broken_entry_is_reported(config: SearchConfig, problem: Diagnostic)
    ensures
        branch_reach(Branch::Broken(problem)) == seq![Branch::Broken(problem)],
        trace_of(config, branch_reach(Branch::Broken(problem))) == seq![
            Printed::Problem(problem.text()),
        ],
        matches_in(trace_of(config, branch_reach(Branch::Broken(problem)))).len() == 0,
        visits_of(branch_reach(Branch::Broken(problem))).len() == 0,
{
    let place = Branch::Broken(problem);
    assert(seq![place].drop_first() =~= Seq::<Branch>::empty());
    assert(trace_of(config, seq![place].drop_first()) =~= Seq::<Printed>::empty());
    assert(visits_of(seq![place].drop_first()) =~= Seq::<String>::empty());
    assert(trace_of(config, seq![place]) =~= seq![Printed::Problem(problem.text())]);
    assert(visits_of(seq![place]) =~= Seq::<String>::empty());
    lemma_output_is_selection(config, seq![place]);
    assert(selection(config, seq![place].drop_first()) =~= Seq::<Seq<char>>::empty());
    assert(selection(config, seq![place]) =~= Seq::<Seq<char>>::empty());
}

/// A directory that could not be listed is visited as any other entry,
/// the failure is reported, and the walk comes to nothing below it: no
/// line of the output stands for anything in it.
pub proof fn lemma_unlisted_directory_is_reported(config: SearchConfig, dir: Node, cause: String)
    requires
        dir.facts.descends(),
        dir.listing == Err::<Vec<Branch>, String>(cause),
    ensures
        branch_reach(Branch::Entry(dir)) == seq![Branch::Entry(dir)],
        trace_of(config, branch_reach(Branch::Entry(dir))) == own_trace(config, dir).push(
            Printed::Problem(Diagnostic::Listing { path: dir.at.path, cause }.text()),
        ),
        matches_in(trace_of(config, branch_reach(Branch::Entry(dir)))) == matches_in(
            own_trace(config, dir),
        ),
        visits_of(branch_reach(Branch::Entry(dir))) == seq![dir.at.path],
{
    let place = Branch::Entry(dir);
    let failure = seq![Printed::Problem(Diagnostic::Listing { path: dir.at.path, cause }.text())];
    assert(branch_reach(place) =~= seq![place]);
    assert(seq![place].drop_first() =~= Seq::<Branch>::empty());
    assert(trace_of(config, seq![place].drop_first()) =~= Seq::<Printed>::empty());
    assert(visits_of(seq![place].drop_first()) =~= Seq::<String>::empty());
    assert(trace_of(config, seq![place]) =~= own_trace(config, dir) + failure);
    assert(visits_of(seq![place]) =~= seq![dir.at.path]);
    lemma_matches_concatenate(own_trace(config, dir), failure);
    assert(matches_in(failure.drop_first()) =~= Seq::<Seq<char>>::empty());
    assert(matches_in(failure) =~= Seq::<Seq<char>>::empty());
}

/// What happens at one place of a listing leaves the walk over the other
/// places alone: the walk over the listing is the walk over the places
/// before it, then the walk from that place, then the walk over the
/// places after it, each as if it stood alone.
pub proof fn lemma_walk_splits_at_place(config: SearchConfig, listing: Seq<Branch>, at: int)
    requires
        0 <= at < listing.len(),
    ensures
        branches_reach(listing) == branches_reach(listing.take(at)) + branch_reach(listing[at])
            + branches_reach(listing.skip(at + 1)),
        trace_of(config, branches_reach(listing)) == trace_of(
            config,
            branches_reach(listing.take(at)),
        ) + trace_of(config, branch_reach(listing[at])) + trace_of(
            config,
            branches_reach(listing.skip(at + 1)),
        ),
        visits_of(branches_reach(listing)) == visits_of(branches_reach(listing.take(at)))
            + visits_of(branch_reach(listing[at])) + visits_of(
            branches_reach(listing.skip(at + 1)),
        ),
{
    let head = listing.take(at);
    let tail = listing.skip(at);
    assert(listing =~= head + tail);
    lemma_reach_concatenates(head, tail);
    assert(tail.first() == listing[at]);
    assert(tail.drop_first() =~= listing.skip(at + 1));
    let middle = branch_reach(listing[at]);
    let end = branches_reach(listing.skip(at + 1));
    assert(branches_reach(tail) == middle + end);
    assert(branches_reach(head) + (middle + end) =~= branches_reach(head) + middle + end);
    lemma_trace_concatenates(config, branches_reach(head), middle + end);
    lemma_trace_concatenates(config, middle, end);
    lemma_visits_concatenate(branches_reach(head), middle + end);
    lemma_visits_concatenate(middle, end);
    assert(trace_of(config, branches_reach(head)) + (trace_of(config, middle) + trace_of(
        config,
        end,
    )) =~= trace_of(config, branches_reach(head)) + trace_of(config, middle) + trace_of(
        config,
        end,
    ));
    assert(visits_of(branches_reach(head)) + (visits_of(middle) + visits_of(end)) =~= visits_of(
        branches_reach(head),
    ) + visits_of(middle) + visits_of(end));
}

} // verus!

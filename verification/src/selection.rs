//! The output of a walk: the lines of the entries that it selects.

use crate::diagnostic::Printed;
use crate::pattern::name_match;
use crate::render::rendered;
use crate::snapshot::{own_trace, place_trace, trace_of, Branch, Node};
use crate::visit::lemma_path_printed_iff_selected;
use crate::walker::SearchConfig;
use vstd::prelude::*;

verus! {

/// The walk at `entry` selects it: its name matches the pattern and its
/// type satisfies the filter.
pub open spec fn selects(config: SearchConfig, entry: Node) -> bool {
    name_match(config.pattern, entry.at.name@) is Some && entry.facts.satisfies(config.filter)
}

/// The line for a selected entry.
pub open spec fn selected_line(config: SearchConfig, entry: Node) -> Seq<char> {
    rendered(
        entry.at.parent@,
        entry.at.name@,
        name_match(config.pattern, entry.at.name@)->0,
        config.colorize,
    )
}

/// The lines of the selected entries among a run of places, in order.
pub open spec fn selection(config: SearchConfig, places: Seq<Branch>) -> Seq<Seq<char>>
    decreases places.len(),
{
    if places.len() == 0 {
        Seq::empty()
    } else {
        (match places.first() {
            Branch::Entry(entry) if selects(config, entry) => seq![selected_line(config, entry)],
            _ => Seq::empty(),
        }) + selection(config, places.drop_first())
    }
}

/// The lines that a trace puts on the output stream, in order.
pub open spec fn matches_in(trace: Seq<Printed>) -> Seq<Seq<char>>
    decreases trace.len(),
{
    if trace.len() == 0 {
        Seq::empty()
    } else {
        (match trace.first() {
            Printed::Match(line) => seq![line],
            Printed::Problem(_) => Seq::empty(),
        }) + matches_in(trace.drop_first())
    }
}

/// The output of two traces, one after the other, is the output of the
/// first and then that of the second.
pub proof fn lemma_matches_concatenate(first: Seq<Printed>, second: Seq<Printed>)
    ensures
        matches_in(first + second) == matches_in(first) + matches_in(second),
    decreases first.len(),
{
    if first.len() == 0 {
        assert(first + second =~= second);
    } else {
        assert((first + second).drop_first() =~= first.drop_first() + second);
        lemma_matches_concatenate(first.drop_first(), second);
    }
}

/// The output of a walk is the lines of the entries that it selects among
/// the places it comes to, each once and in the order of the walk: no
/// line stands for an entry whose name does not match or whose type does
/// not satisfy the filter, and no selected entry is left out.
pub proof fn lemma_output_is_selection(config: SearchConfig, places: Seq<Branch>)
    ensures
        matches_in(trace_of(config, places)) == selection(config, places),
    decreases places.len(),
{
    if places.len() > 0 {
        let rest = trace_of(config, places.drop_first());
        lemma_output_is_selection(config, places.drop_first());
        lemma_matches_concatenate(place_trace(config, places.first()), rest);
        match places.first() {
            Branch::Broken(problem) => {
                let own = seq![Printed::Problem(problem.text())];
                assert(matches_in(own.drop_first()) =~= Seq::<Seq<char>>::empty());
                assert(matches_in(own) =~= Seq::<Seq<char>>::empty());
            },
            Branch::Entry(entry) => {
                lemma_path_printed_iff_selected(
                    config.filter,
                    config.colorize,
                    name_match(config.pattern, entry.at.name@),
                    entry.at,
                    entry.facts,
                );
                let own = own_trace(config, entry);
                let failed = place_trace(config, places.first()).skip(own.len() as int);
                assert(place_trace(config, places.first()) =~= own + failed);
                lemma_matches_concatenate(own, failed);
                assert(matches_in(failed) =~= Seq::<Seq<char>>::empty()) by {
                    if failed.len() > 0 {
                        assert(matches_in(failed.drop_first()) =~= Seq::<Seq<char>>::empty());
                    }
                }
                if own.len() > 0 {
                    assert(matches_in(own.drop_first()) =~= Seq::<Seq<char>>::empty());
                }
                assert(matches_in(own) =~= (if selects(config, entry) {
                    seq![selected_line(config, entry)]
                } else {
                    Seq::empty()
                }));
            },
        }
    }
}

} // verus!

//! What the host says, and what follows from it.
//!
//! The host reports the outputs that show active content as one property,
//! `display-names`: the device names of those outputs, separated by commas.

use crate::model::MonitorsView;
use crate::monitors::Monitors;
use crate::text::texts;
use crate::vcp::{steps, Command, Step};
use vstd::prelude::*;

verus! {

/// The tokens of a comma-separated list. A comma ends a token and begins
/// the next, so a text with `n` commas has `n + 1` tokens, some of which may
/// be empty; the empty text has the one empty token.
pub open spec fn split_on_comma(text: Seq<char>) -> Seq<Seq<char>>
    decreases text.len(),
{
    if text.len() == 0 {
        seq![Seq::empty()]
    } else {
        let earlier = split_on_comma(text.drop_last());
        if text.last() == ',' {
            earlier.push(Seq::empty())
        } else {
            earlier.drop_last().push(earlier.last().push(text.last()))
        }
    }
}

/// The tokens written one after the other, with a comma between each two.
pub open spec fn join_with_comma(tokens: Seq<Seq<char>>) -> Seq<char>
    decreases tokens.len(),
{
    if tokens.len() == 0 {
        Seq::empty()
    } else if tokens.len() == 1 {
        tokens[0]
    } else {
        join_with_comma(tokens.drop_last()) + seq![','] + tokens.last()
    }
}

/// Splitting loses nothing: no token holds a comma, and the tokens joined
/// with commas are the text again.
pub proof fn lemma_split_on_comma(text: Seq<char>)
    ensures
        split_on_comma(text).len() >= 1,
        forall|i: int|
            0 <= i < split_on_comma(text).len() ==> !(#[trigger] split_on_comma(text)[i]).contains(
                ',',
            ),
        join_with_comma(split_on_comma(text)) == text,
    decreases text.len(),
{
    let tokens = split_on_comma(text);
    if text.len() == 0 {
        assert(join_with_comma(tokens) =~= text);
    } else {
        let front = text.drop_last();
        let earlier = split_on_comma(front);
        lemma_split_on_comma(front);
        assert(text =~= front.push(text.last()));
        if text.last() == ',' {
            assert(tokens.drop_last() =~= earlier);
            assert(join_with_comma(tokens) =~= text);
        } else {
            let open = earlier.last();
            let grown = open.push(text.last());
            assert forall|at: int| 0 <= at < grown.len() implies grown[at] != ',' by {
                if at < open.len() {
                    assert(open.contains(open[at]));
                }
            }
            assert forall|i: int| 0 <= i < tokens.len() implies !(#[trigger] tokens[i]).contains(
                ',',
            ) by {
                if i < tokens.len() - 1 {
                    assert(tokens[i] == earlier[i]);
                }
            }
            if earlier.len() == 1 {
                assert(join_with_comma(tokens) =~= text);
            } else {
                assert(tokens.drop_last() =~= earlier.drop_last());
                assert(join_with_comma(tokens) =~= text);
            }
        }
    }
}

/// Splits the value of the `display-names` property into device names.
pub fn split_display_names(csv: &str) -> (names: Vec<String>)
    ensures
        texts(names@) == split_on_comma(csv@),
{
    let length = csv.unicode_len();
    let mut names: Vec<String> = Vec::new();
    let mut start: usize = 0;
    let mut i: usize = 0;
    assert(csv@.take(0) =~= Seq::<char>::empty());
    assert(texts(names@).push(csv@.subrange(0, 0)) =~= split_on_comma(csv@.take(0)));
    while i < length
        invariant
            length == csv@.len(),
            start <= i <= length,
            texts(names@).push(csv@.subrange(start as int, i as int)) == split_on_comma(
                csv@.take(i as int),
            ),
        decreases length - i,
    {
        let ghost done = texts(names@);
        let ghost open = csv@.subrange(start as int, i as int);
        proof {
            assert(csv@.take(i + 1).drop_last() =~= csv@.take(i as int));
            assert(csv@.take(i + 1).last() == csv@[i as int]);
            assert(done.push(open).drop_last() =~= done);
        }
        if csv.get_char(i) == ',' {
            names.push(csv.substring_char(start, i).to_owned());
            start = i + 1;
            assert(texts(names@) =~= done.push(open));
            assert(csv@.subrange(start as int, i + 1) =~= Seq::<char>::empty());
        } else {
            assert(csv@.subrange(start as int, i + 1) =~= open.push(csv@[i as int]));
        }
        i += 1;
    }
    let ghost done = texts(names@);
    names.push(csv.substring_char(start, length).to_owned());
    assert(texts(names@) =~= done.push(csv@.subrange(start as int, length as int)));
    assert(csv@.take(length as int) =~= csv@);
    names
}

/// What the host can report.
pub enum HostEvent {
    /// The host is shutting down.
    Shutdown,
    /// Nothing happened.
    Idle,
    /// An observed property changed. The value is there where the host gave
    /// one and it is text.
    PropertyChange { name: String, value: Option<String> },
    /// Anything else.
    Other,
}

/// What to do after an event: the plan to carry out, and whether to go on
/// listening afterwards.
pub enum Reaction {
    /// Carry out the plan and wait for the next event.
    Proceed(Vec<Command>),
    /// Carry out the plan and stop.
    Leave(Vec<Command>),
}

/// The name of the property that lists the active outputs.
pub open spec fn display_names_property() -> Seq<char> {
    "display-names"@
}

/// The plan that an event calls for. A shutdown restores every display. A
/// change of the `display-names` property to a text puts the outputs that
/// the text names in the spotlight. Nothing else touches a display.
pub open spec fn plan_for(monitors: MonitorsView, event: HostEvent) -> Seq<Step> {
    match event {
        HostEvent::Shutdown => monitors.restore_each(monitors.ids),
        HostEvent::PropertyChange { name, value: Some(csv) } => if name@
            == display_names_property() {
            monitors.spotlight_plan(split_on_comma(csv@))
        } else {
            Seq::empty()
        },
        _ => Seq::empty(),
    }
}

/// Decides what an event of the host leads to. Only a shutdown ends the
/// listening.
pub fn react(monitors: &Monitors, event: &HostEvent) -> (reaction: Reaction)
    requires
        monitors.wf(),
    ensures
        match reaction {
            Reaction::Proceed(plan) => !(event is Shutdown) && steps(plan@) == plan_for(
                monitors@,
                *event,
            ),
            Reaction::Leave(plan) => event is Shutdown && steps(plan@) == plan_for(
                monitors@,
                *event,
            ),
        },
{
    match event {
        HostEvent::Shutdown => Reaction::Leave(monitors.restore_all()),
        HostEvent::PropertyChange { name, value: Some(csv) } => {
            let wanted = "display-names".to_owned();
            if *name == wanted {
                let names = split_display_names(csv.as_str());
                Reaction::Proceed(monitors.spotlight_names(&names))
            } else {
                let plan: Vec<Command> = Vec::new();
                assert(steps(plan@) =~= Seq::<Step>::empty());
                Reaction::Proceed(plan)
            }
        },
        _ => {
            let plan: Vec<Command> = Vec::new();
            assert(steps(plan@) =~= Seq::<Step>::empty());
            Reaction::Proceed(plan)
        },
    }
}

} // verus!

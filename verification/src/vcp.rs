//! Virtual control panel features, the commands that reach a display over
//! the DDC/CI bus, and a model of what those commands do to it.

use ddc_hi::VcpValue;
use vstd::prelude::*;

verus! {

/// Feature code of a display's luminance.
pub const VCP_LUMINANCE: u8 = 0x10;

/// Feature code of a display's contrast.
pub const VCP_CONTRAST: u8 = 0x12;

/// Milliseconds the bus needs to settle after a command.
pub const VCP_DELAY_MILLIS: u64 = 10;

/// The two features that are dimmed and restored.
#[derive(Clone, Copy, Debug, PartialEq, Eq, Structural)]
pub enum Feature {
    Luminance,
    Contrast,
}

impl Feature {
    /// The feature's code on the bus.
    pub open spec fn spec_code(self) -> u8 {
        match self {
            Feature::Luminance => VCP_LUMINANCE,
            Feature::Contrast => VCP_CONTRAST,
        }
    }

    /// The feature's code on the bus.
    #[verifier::when_used_as_spec(spec_code)]
    pub fn code(self) -> (code: u8)
        ensures
            code == self.spec_code(),
    {
        match self {
            Feature::Luminance => VCP_LUMINANCE,
            Feature::Contrast => VCP_CONTRAST,
        }
    }
}

/// The reply to a feature read, as `ddc_hi` hands it out: the feature's
/// type byte, then the maximum and the current value, each as a high and a
/// low byte. All five fields are public bytes, and they are declared as
/// they are so that a contract can speak of them.
#[verifier::external_type_specification]
pub struct ExVcpValue(VcpValue);

/// The current value that a reply carries: its two value bytes, high byte
/// first.
pub open spec fn scalar_of(reply: VcpValue) -> u16 {
    ((reply.sh as u16) << 8) | (reply.sl as u16)
}

/// `VcpValue::value` shifts the high value byte up by eight bits and ors the
/// low value byte into it.
pub assume_specification[ VcpValue::value ](reply: &VcpValue) -> (value: u16)
    ensures
        value == scalar_of(*reply),
;

/// One thing to do on the bus, in the order in which a plan lists it.
#[derive(Debug, PartialEq, Eq)]
pub enum Command {
    /// Read the current value of a feature of a display.
    Read { display: String, code: u8 },
    /// Set a feature of a display to a value.
    Write { display: String, code: u8, value: u16 },
    /// Let the bus settle for `VCP_DELAY_MILLIS`.
    Pause,
}

/// A command, with the display's identity as a sequence of characters.
pub enum Step {
    Read { display: Seq<char>, code: u8 },
    Write { display: Seq<char>, code: u8, value: u16 },
    Pause,
}

impl View for Command {
    type V = Step;

    open spec fn view(&self) -> Step {
        match *self {
            Command::Read { display, code } => Step::Read { display: display@, code },
            Command::Write { display, code, value } => Step::Write { display: display@, code, value },
            Command::Pause => Step::Pause,
        }
    }
}

impl Clone for Command {
    fn clone(&self) -> (copy: Self)
        ensures
            copy@ == self@,
    {
        match self {
            Command::Read { display, code } => Command::Read {
                display: display.clone(),
                code: *code,
            },
            Command::Write { display, code, value } => Command::Write {
                display: display.clone(),
                code: *code,
                value: *value,
            },
            Command::Pause => Command::Pause,
        }
    }
}

/// A plan as the sequence of its steps.
pub open spec fn steps(plan: Seq<Command>) -> Seq<Step> {
    Seq::new(plan.len(), |i: int| plan[i]@)
}

/// The value of each feature of each display that has been written, by
/// identity and feature code.
pub type Levels = Map<(Seq<char>, u8), u16>;

/// The levels after one step that the display obeyed. Only a write changes
/// them.
pub open spec fn effect(levels: Levels, step: Step) -> Levels {
    match step {
        Step::Write { display, code, value } => levels.insert((display, code), value),
        _ => levels,
    }
}

/// The levels after every step of a plan, taken in order.
pub open spec fn outcome(levels: Levels, plan: Seq<Step>) -> Levels
    decreases plan.len(),
{
    if plan.len() == 0 {
        levels
    } else {
        effect(outcome(levels, plan.drop_last()), plan.last())
    }
}

/// Whether a step occupies the bus.
pub open spec fn on_bus(step: Step) -> bool {
    step is Read || step is Write
}

/// No two steps that occupy the bus follow each other directly: each one
/// that has a successor is followed by a pause.
pub open spec fn paced(plan: Seq<Step>) -> bool {
    forall|i: int| 0 <= i && i + 1 < plan.len() && on_bus(#[trigger] plan[i]) ==> plan[i + 1] is Pause
}

/// The plan leaves the bus settled: it is empty or ends in a pause.
pub open spec fn settled(plan: Seq<Step>) -> bool {
    plan.len() > 0 ==> plan.last() is Pause
}

/// Whether a step writes to the given feature of the given display.
pub open spec fn targets(step: Step, display: Seq<char>, code: u8) -> bool {
    match step {
        Step::Write { display: d, code: c, .. } => d == display && c == code,
        _ => false,
    }
}

/// Whether a plan writes to the given feature of the given display.
pub open spec fn writes_to(plan: Seq<Step>, display: Seq<char>, code: u8) -> bool {
    exists|i: int| 0 <= i < plan.len() && targets(#[trigger] plan[i], display, code)
}

/// Running two plans one after the other is running their concatenation.
pub proof fn lemma_outcome_concat(levels: Levels, first: Seq<Step>, second: Seq<Step>)
    ensures
        outcome(levels, first + second) == outcome(outcome(levels, first), second),
    decreases second.len(),
{
    if second.len() == 0 {
        assert(first + second =~= first);
    } else {
        assert((first + second).drop_last() =~= first + second.drop_last());
        assert((first + second).last() == second.last());
        lemma_outcome_concat(levels, first, second.drop_last());
    }
}

/// A plan leaves alone every level that it does not write to.
pub proof fn lemma_outcome_elsewhere(levels: Levels, plan: Seq<Step>, display: Seq<char>, code: u8)
    requires
        !writes_to(plan, display, code),
    ensures
        outcome(levels, plan).contains_key((display, code)) == levels.contains_key((display, code)),
        outcome(levels, plan)[(display, code)] == levels[(display, code)],
    decreases plan.len(),
{
    if plan.len() > 0 {
        let front = plan.drop_last();
        assert forall|i: int| 0 <= i < front.len() implies !targets(
            #[trigger] front[i],
            display,
            code,
        ) by {
            assert(front[i] == plan[i]);
        }
        lemma_outcome_elsewhere(levels, front, display, code);
        assert(!targets(plan[plan.len() - 1], display, code));
    }
}

/// What a plan writes does not depend on the levels it starts from: its
/// outcome is the starting levels overlaid with what it writes on an empty
/// bus.
pub proof fn lemma_outcome_overlays(levels: Levels, plan: Seq<Step>)
    ensures
        outcome(levels, plan) == levels.union_prefer_right(outcome(Map::empty(), plan)),
    decreases plan.len(),
{
    let blank: Levels = Map::empty();
    if plan.len() == 0 {
        assert(levels =~= levels.union_prefer_right(blank));
    } else {
        lemma_outcome_overlays(levels, plan.drop_last());
        let before = outcome(levels, plan.drop_last());
        let written = outcome(blank, plan.drop_last());
        assert(effect(before, plan.last()) =~= levels.union_prefer_right(
            effect(written, plan.last()),
        ));
    }
}

/// Running a plan a second time changes nothing.
pub proof fn lemma_replay(levels: Levels, plan: Seq<Step>)
    ensures
        outcome(outcome(levels, plan), plan) == outcome(levels, plan),
{
    let written = outcome(Map::empty(), plan);
    lemma_outcome_overlays(levels, plan);
    lemma_outcome_overlays(outcome(levels, plan), plan);
    assert(levels.union_prefer_right(written).union_prefer_right(written)
        =~= levels.union_prefer_right(written));
}

/// A paced plan that leaves the bus settled can be followed by any paced
/// plan.
pub proof fn lemma_paced_concat(first: Seq<Step>, second: Seq<Step>)
    requires
        paced(first),
        paced(second),
        settled(first),
    ensures
        paced(first + second),
        settled(second) ==> settled(first + second),
{
    let both = first + second;
    assert forall|i: int| 0 <= i && i + 1 < both.len() && on_bus(#[trigger] both[i]) implies both[i
        + 1] is Pause by {
        if i + 1 < first.len() {
            assert(both[i] == first[i]);
            assert(both[i + 1] == first[i + 1]);
        } else if i < first.len() {
            assert(both[i] == first.last());
        } else {
            assert(both[i] == second[i - first.len()]);
            assert(both[i + 1] == second[i - first.len() + 1]);
        }
    }
    if second.len() == 0 {
        assert(both =~= first);
    }
}

} // verus!

//! What a macro does when it runs, step by step.

use crate::model::{ActionEventType, Macro};
use crate::plugin::{Delay, KeyPress, KeyType, MouseAction, PhillipsHueStatus, SystemAction};
use crate::seq_facts::lemma_filter_concat;
use vstd::prelude::*;

verus! {

/// One thing to do while a macro runs.
#[derive(Debug, Clone, Copy, PartialEq, Eq, Structural)]
pub enum Step {
    /// Send the press of the key with this HID code.
    PressKey(u32),
    /// Send the release of the key with this HID code.
    ReleaseKey(u32),
    /// Wait this many milliseconds.
    Sleep(Delay),
    /// Start this system action on the side.
    StartSystemAction(SystemAction),
    /// Start this mouse action on the side.
    StartMouseAction(MouseAction),
}

/// The steps of one action.  A full key press is a press, a wait and a release; the light, OBS and
/// Discord actions do nothing.
pub open spec fn action_steps(action: ActionEventType) -> Seq<Step> {
    match action {
        ActionEventType::KeyPressEventAction { data } => match data.keytype {
            KeyType::Down => seq![Step::PressKey(data.keypress)],
            KeyType::Up => seq![Step::ReleaseKey(data.keypress)],
            KeyType::DownUp => seq![
                Step::PressKey(data.keypress),
                Step::Sleep(data.press_duration),
                Step::ReleaseKey(data.keypress),
            ],
        },
        ActionEventType::SystemEventAction { data } => seq![Step::StartSystemAction(data)],
        ActionEventType::PhillipsHueEventAction { .. } => Seq::empty(),
        ActionEventType::OBSEventAction {  } => Seq::empty(),
        ActionEventType::DiscordEventAction {  } => Seq::empty(),
        ActionEventType::MouseEventAction { data } => seq![Step::StartMouseAction(data)],
        ActionEventType::DelayEventAction { data } => seq![Step::Sleep(data)],
    }
}

/// The steps of a sequence of actions, one action after the other.
pub open spec fn sequence_steps(sequence: Seq<ActionEventType>) -> Seq<Step>
    decreases sequence.len(),
{
    if sequence.len() == 0 {
        Seq::empty()
    } else {
        sequence_steps(sequence.drop_last()) + action_steps(sequence.last())
    }
}

/// A run of a macro: its steps, how many of them were handed out, and whether one failed.
#[derive(Debug)]
pub struct MacroRun {
    steps: Vec<Step>,
    position: usize,
    failed: bool,
}

/// What comes next in a run.
#[derive(Debug, Clone, Copy, PartialEq, Eq, Structural)]
pub enum Progress {
    /// Perform this step.
    Perform(Step),
    /// All steps were performed.
    Finished,
    /// A step could not be performed, and the run ended there.
    Failed,
}

impl MacroRun {
    /// The steps of the run.
    pub closed spec fn steps(self) -> Seq<Step> {
        self.steps@
    }

    /// How many steps were handed out.
    pub closed spec fn position(self) -> nat {
        self.position as nat
    }

    /// Whether a step could not be performed.
    pub closed spec fn failed(self) -> bool {
        self.failed
    }

    /// What comes next, given whether the step handed out last could be performed (`true` at the
    /// start).  Nothing comes after a failed step.
    pub fn next(&mut self, performed: bool) -> (progress: Progress)
        ensures
            final(self).steps() == old(self).steps(),
            final(self).failed() == (old(self).failed() || !performed),
            final(self).failed() ==> progress is Failed && final(self).position() == old(
                self,
            ).position(),
            !final(self).failed() && old(self).position() < old(self).steps().len() ==> progress
                == Progress::Perform(old(self).steps()[old(self).position() as int])
                && final(self).position() == old(self).position() + 1,
            !final(self).failed() && old(self).position() >= old(self).steps().len() ==> progress
                is Finished && final(self).position() == old(self).position(),
    {
        if !performed {
            self.failed = true;
        }
        if self.failed {
            Progress::Failed
        } else if self.position < self.steps.len() {
            let step = self.steps[self.position];
            self.position = self.position + 1;
            Progress::Perform(step)
        } else {
            Progress::Finished
        }
    }
}

impl Macro {
    /// Starts a run of the macro, with the steps of its actions in order.
    pub fn execute(&self) -> (run: MacroRun)
        ensures
            run.steps() == sequence_steps(self@.sequence),
            run.position() == 0,
            !run.failed(),
    {
        let mut steps: Vec<Step> = Vec::new();
        let ghost sequence = self.sequence@;
        assert(sequence.take(0) =~= Seq::empty());
        for i in 0..self.sequence.len()
            invariant
                sequence == self.sequence@,
                steps@ == sequence_steps(sequence.take(i as int)),
        {
            let ghost before = steps@;
            assert(sequence.take(i + 1).drop_last() =~= sequence.take(i as int));
            match self.sequence[i] {
                ActionEventType::KeyPressEventAction { data } => match data.keytype {
                    KeyType::Down => {
                        steps.push(Step::PressKey(data.keypress));
                    },
                    KeyType::Up => {
                        steps.push(Step::ReleaseKey(data.keypress));
                    },
                    KeyType::DownUp => {
                        steps.push(Step::PressKey(data.keypress));
                        steps.push(Step::Sleep(data.press_duration));
                        steps.push(Step::ReleaseKey(data.keypress));
                    },
                },
                ActionEventType::PhillipsHueEventAction { .. } => {},
                ActionEventType::OBSEventAction {  } => {},
                ActionEventType::DiscordEventAction {  } => {},
                ActionEventType::DelayEventAction { data } => {
                    steps.push(Step::Sleep(data));
                },
                ActionEventType::SystemEventAction { data } => {
                    steps.push(Step::StartSystemAction(data));
                },
                ActionEventType::MouseEventAction { data } => {
                    steps.push(Step::StartMouseAction(data));
                },
            }
            assert(steps@ =~= before + action_steps(sequence[i as int]));
        }
        assert(sequence.take(sequence.len() as int) =~= sequence);
        MacroRun { steps, position: 0, failed: false }
    }
}

/// The steps of two sequences, one after the other, are the steps of the joined sequence.
pub proof fn law_steps_of_joined_sequences(a: Seq<ActionEventType>, b: Seq<ActionEventType>)
    ensures
        sequence_steps(a + b) == sequence_steps(a) + sequence_steps(b),
    decreases b.len(),
{
    if b.len() == 0 {
        assert(a + b =~= a);
        assert(sequence_steps(a) + sequence_steps(b) =~= sequence_steps(a));
    } else {
        law_steps_of_joined_sequences(a, b.drop_last());
        assert((a + b).drop_last() =~= a + b.drop_last());
        assert(sequence_steps(a + b) =~= sequence_steps(a) + sequence_steps(b));
    }
}

/// Whether every key action of the sequence is a full press.
pub open spec fn only_full_presses(sequence: Seq<ActionEventType>) -> bool {
    forall|i: int|
        0 <= i < sequence.len() ==> (#[trigger] sequence[i] matches
            ActionEventType::KeyPressEventAction { data } ==> data.keytype is DownUp)
}

/// How many more presses than releases of `key` the steps send.
pub open spec fn presses_left(steps: Seq<Step>, key: u32) -> int
    decreases steps.len(),
{
    if steps.len() == 0 {
        0
    } else {
        presses_left(steps.drop_last(), key) + match steps.last() {
            Step::PressKey(k) => if k == key {
                1int
            } else {
                0
            },
            Step::ReleaseKey(k) => if k == key {
                -1int
            } else {
                0
            },
            _ => 0,
        }
    }
}

proof fn lemma_presses_left_concat(a: Seq<Step>, b: Seq<Step>, key: u32)
    ensures
        presses_left(a + b, key) == presses_left(a, key) + presses_left(b, key),
    decreases b.len(),
{
    if b.len() == 0 {
        assert(a + b =~= a);
    } else {
        lemma_presses_left_concat(a, b.drop_last(), key);
        assert((a + b).drop_last() =~= a + b.drop_last());
    }
}

/// A sequence whose key actions are all full presses leaves no key down: it sends as many releases
/// as presses of every key.
pub proof fn law_full_presses_leave_no_key_down(sequence: Seq<ActionEventType>, key: u32)
    requires
        only_full_presses(sequence),
    ensures
        presses_left(sequence_steps(sequence), key) == 0,
    decreases sequence.len(),
{
    if sequence.len() > 0 {
        let shorter = sequence.drop_last();
        let action = sequence.last();
        assert forall|i: int| 0 <= i < shorter.len() implies (#[trigger] shorter[i] matches
            ActionEventType::KeyPressEventAction { data } ==> data.keytype is DownUp) by {
            assert(shorter[i] == sequence[i]);
        }
        law_full_presses_leave_no_key_down(shorter, key);
        lemma_presses_left_concat(sequence_steps(shorter), action_steps(action), key);
        assert(action == sequence[sequence.len() - 1]);
        let steps = action_steps(action);
        reveal_with_fuel(presses_left, 4);
        assert(steps.len() >= 1 ==> steps.drop_last().len() == steps.len() - 1);
        if let ActionEventType::KeyPressEventAction { data } = action {
            assert(steps.drop_last() =~= seq![
                Step::PressKey(data.keypress),
                Step::Sleep(data.press_duration),
            ]);
            assert(steps.drop_last().drop_last() =~= seq![Step::PressKey(data.keypress)]);
        }
    }
}

/// A key action sends just what its kind says, for whatever key: going down is one press of its
/// own key, going up is one release of its own key, and a full press is the press, the wait of the
/// set duration, and the release.
pub proof fn law_key_action_sends_its_key(data: KeyPress)
    ensures
        ({
            let steps = sequence_steps(seq![ActionEventType::KeyPressEventAction { data }]);
            match data.keytype {
                KeyType::Down => steps.len() == 1 && steps[0] == Step::PressKey(data.keypress),
                KeyType::Up => steps.len() == 1 && steps[0] == Step::ReleaseKey(data.keypress),
                KeyType::DownUp => {
                    &&& steps.len() == 3
                    &&& steps[0] == Step::PressKey(data.keypress)
                    &&& steps[1] == Step::Sleep(data.press_duration)
                    &&& steps[2] == Step::ReleaseKey(data.keypress)
                },
            }
        }),
{
    lemma_steps_of_one(ActionEventType::KeyPressEventAction { data });
}

/// A delay is one wait of its length, a system or mouse action is started once, and the light, OBS
/// and Discord actions do nothing.
pub proof fn law_other_action_steps(
    delay: Delay,
    system: SystemAction,
    mouse: MouseAction,
    light: PhillipsHueStatus,
)
    ensures
        sequence_steps(seq![ActionEventType::DelayEventAction { data: delay }]) == seq![
            Step::Sleep(delay),
        ],
        sequence_steps(seq![ActionEventType::SystemEventAction { data: system }]) == seq![
            Step::StartSystemAction(system),
        ],
        sequence_steps(seq![ActionEventType::MouseEventAction { data: mouse }]) == seq![
            Step::StartMouseAction(mouse),
        ],
        sequence_steps(seq![ActionEventType::PhillipsHueEventAction { data: light }]).len() == 0,
        sequence_steps(seq![ActionEventType::OBSEventAction {  }]).len() == 0,
        sequence_steps(seq![ActionEventType::DiscordEventAction {  }]).len() == 0,
        sequence_steps(Seq::empty()).len() == 0,
{
    lemma_steps_of_one(ActionEventType::DelayEventAction { data: delay });
    lemma_steps_of_one(ActionEventType::SystemEventAction { data: system });
    lemma_steps_of_one(ActionEventType::MouseEventAction { data: mouse });
    lemma_steps_of_one(ActionEventType::PhillipsHueEventAction { data: light });
    lemma_steps_of_one(ActionEventType::OBSEventAction {  });
    lemma_steps_of_one(ActionEventType::DiscordEventAction {  });
}

proof fn lemma_steps_of_one(action: ActionEventType)
    ensures
        sequence_steps(seq![action]) == action_steps(action),
{
    assert(seq![action].drop_last() =~= Seq::empty());
    assert(sequence_steps(Seq::<ActionEventType>::empty()) + action_steps(action) =~= action_steps(
        action,
    ));
}

/// Of every key, modifier or not, a sequence sends one press for each of its actions that press it
/// and one release for each of its actions that release it, a full press counting as both.  So a
/// sequence that lifts a key as often as it puts it down leaves the key as it was.
pub proof fn law_presses_and_releases_match_actions(sequence: Seq<ActionEventType>, key: u32)
    ensures
        sequence_steps(sequence).filter(|s: Step| s == Step::PressKey(key)).len()
            == sequence.filter(
            |a: ActionEventType|
                a is KeyPressEventAction && a->KeyPressEventAction_data.keypress == key
                    && !(a->KeyPressEventAction_data.keytype is Up),
        ).len(),
        sequence_steps(sequence).filter(|s: Step| s == Step::ReleaseKey(key)).len()
            == sequence.filter(
            |a: ActionEventType|
                a is KeyPressEventAction && a->KeyPressEventAction_data.keypress == key
                    && !(a->KeyPressEventAction_data.keytype is Down),
        ).len(),
    decreases sequence.len(),
{
    let is_press = |s: Step| s == Step::PressKey(key);
    let is_release = |s: Step| s == Step::ReleaseKey(key);
    let presses = |a: ActionEventType|
        a is KeyPressEventAction && a->KeyPressEventAction_data.keypress == key
            && !(a->KeyPressEventAction_data.keytype is Up);
    let releases = |a: ActionEventType|
        a is KeyPressEventAction && a->KeyPressEventAction_data.keypress == key
            && !(a->KeyPressEventAction_data.keytype is Down);
    reveal(Seq::filter);
    if sequence.len() > 0 {
        let shorter = sequence.drop_last();
        let action = sequence.last();
        let steps = action_steps(action);
        law_presses_and_releases_match_actions(shorter, key);
        lemma_filter_concat(sequence_steps(shorter), steps, is_press);
        lemma_filter_concat(sequence_steps(shorter), steps, is_release);
        lemma_count_of_action(action, key);
        assert(steps.filter(is_press).len() == if presses(action) {
            1nat
        } else {
            0nat
        });
        assert(steps.filter(is_release).len() == if releases(action) {
            1nat
        } else {
            0nat
        });
    }
}

proof fn lemma_count_of_action(action: ActionEventType, key: u32)
    ensures
        action_steps(action).filter(|s: Step| s == Step::PressKey(key)).len() == if action is
            KeyPressEventAction && action->KeyPressEventAction_data.keypress == key && !(
        action->KeyPressEventAction_data.keytype is Up) {
            1nat
        } else {
            0nat
        },
        action_steps(action).filter(|s: Step| s == Step::ReleaseKey(key)).len() == if action is
            KeyPressEventAction && action->KeyPressEventAction_data.keypress == key && !(
        action->KeyPressEventAction_data.keytype is Down) {
            1nat
        } else {
            0nat
        },
{
    let steps = action_steps(action);
    let is_press = |s: Step| s == Step::PressKey(key);
    let is_release = |s: Step| s == Step::ReleaseKey(key);
    reveal(Seq::filter);
    reveal_with_fuel(Seq::filter, 4);
    if steps.len() == 1 {
        assert(steps.drop_last() =~= Seq::empty());
    } else if steps.len() == 3 {
        assert(steps.drop_last() =~= seq![steps[0], steps[1]]);
        assert(steps.drop_last().drop_last() =~= seq![steps[0]]);
        assert(steps.drop_last().drop_last().drop_last() =~= Seq::empty());
    }
}

/// A sequence that puts a key down as often as it lifts it, full presses besides, leaves the key
/// as it was.
pub proof fn law_balanced_sequence_leaves_key_up(sequence: Seq<ActionEventType>, key: u32)
    requires
        sequence.filter(
            |a: ActionEventType|
                a is KeyPressEventAction && a->KeyPressEventAction_data.keypress == key
                    && a->KeyPressEventAction_data.keytype is Down,
        ).len() == sequence.filter(
            |a: ActionEventType|
                a is KeyPressEventAction && a->KeyPressEventAction_data.keypress == key
                    && a->KeyPressEventAction_data.keytype is Up,
        ).len(),
    ensures
        presses_left(sequence_steps(sequence), key) == 0,
        sequence_steps(sequence).filter(|s: Step| s == Step::PressKey(key)).len()
            == sequence_steps(sequence).filter(|s: Step| s == Step::ReleaseKey(key)).len(),
{
    law_presses_and_releases_match_actions(sequence, key);
    lemma_down_and_up_apart(sequence, key);
    law_presses_left_counts(sequence_steps(sequence), key);
}

proof fn lemma_down_and_up_apart(sequence: Seq<ActionEventType>, key: u32)
    ensures
        sequence.filter(
            |a: ActionEventType|
                a is KeyPressEventAction && a->KeyPressEventAction_data.keypress == key
                    && !(a->KeyPressEventAction_data.keytype is Up),
        ).len() - sequence.filter(
            |a: ActionEventType|
                a is KeyPressEventAction && a->KeyPressEventAction_data.keypress == key
                    && !(a->KeyPressEventAction_data.keytype is Down),
        ).len() == sequence.filter(
            |a: ActionEventType|
                a is KeyPressEventAction && a->KeyPressEventAction_data.keypress == key
                    && a->KeyPressEventAction_data.keytype is Down,
        ).len() - sequence.filter(
            |a: ActionEventType|
                a is KeyPressEventAction && a->KeyPressEventAction_data.keypress == key
                    && a->KeyPressEventAction_data.keytype is Up,
        ).len(),
    decreases sequence.len(),
{
    reveal(Seq::filter);
    if sequence.len() > 0 {
        lemma_down_and_up_apart(sequence.drop_last(), key);
    }
}

/// What is left of a key is its presses without its releases.
pub proof fn law_presses_left_counts(steps: Seq<Step>, key: u32)
    ensures
        presses_left(steps, key) == steps.filter(|s: Step| s == Step::PressKey(key)).len()
            - steps.filter(|s: Step| s == Step::ReleaseKey(key)).len(),
    decreases steps.len(),
{
    reveal(Seq::filter);
    if steps.len() > 0 {
        law_presses_left_counts(steps.drop_last(), key);
    }
}

} // verus!

use wooting_macro_backend::model::{ActionEventType, Macro, MacroType, TriggerEventType};
use wooting_macro_backend::plugin::{
    KeyPress, KeyType, MouseAction, PhillipsHueStatus, SystemAction,
};
use wooting_macro_backend::sender::{
    keypress_delay, keypress_executor_sender, SenderAction, SenderEvent,
};
use wooting_macro_backend::steps::{Progress, Step};

fn with_sequence(sequence: Vec<ActionEventType>) -> Macro {
    Macro {
        name: "m".to_string(),
        icon: "i".to_string(),
        sequence,
        macro_type: MacroType::Single,
        trigger: TriggerEventType::KeyPressEvent { data: vec![4], allow_while_other_keys: false },
        active: true,
    }
}

fn key(keypress: u32, press_duration: u64, keytype: KeyType) -> ActionEventType {
    ActionEventType::KeyPressEventAction { data: KeyPress { keypress, press_duration, keytype } }
}

fn all_steps(m: &Macro) -> Vec<Step> {
    let mut run = m.execute();
    let mut steps = vec![];
    loop {
        match run.next(true) {
            Progress::Perform(step) => steps.push(step),
            Progress::Finished => return steps,
            Progress::Failed => panic!("nothing failed"),
        }
    }
}

#[test]
fn every_action_gives_its_steps_in_order() {
    let m = with_sequence(vec![
        key(4, 1, KeyType::Down),
        key(5, 20, KeyType::DownUp),
        ActionEventType::DelayEventAction { data: 30 },
        ActionEventType::PhillipsHueEventAction { data: PhillipsHueStatus { handle: 1 } },
        ActionEventType::OBSEventAction {},
        ActionEventType::DiscordEventAction {},
        ActionEventType::SystemEventAction { data: SystemAction { handle: 7 } },
        ActionEventType::MouseEventAction { data: MouseAction { handle: 8 } },
        key(4, 1, KeyType::Up),
    ]);
    assert_eq!(
        all_steps(&m),
        vec![
            Step::PressKey(4),
            Step::PressKey(5),
            Step::Sleep(20),
            Step::ReleaseKey(5),
            Step::Sleep(30),
            Step::StartSystemAction(SystemAction { handle: 7 }),
            Step::StartMouseAction(MouseAction { handle: 8 }),
            Step::ReleaseKey(4),
        ]
    );
}

#[test]
fn empty_macro_finishes_at_once() {
    assert_eq!(all_steps(&with_sequence(vec![])), vec![]);
}

#[test]
fn finished_run_stays_finished() {
    let mut run = with_sequence(vec![key(4, 1, KeyType::Down)]).execute();
    assert_eq!(run.next(true), Progress::Perform(Step::PressKey(4)));
    assert_eq!(run.next(true), Progress::Finished);
    assert_eq!(run.next(true), Progress::Finished);
}

#[test]
fn failed_step_ends_the_run() {
    let mut run = with_sequence(vec![key(5, 20, KeyType::DownUp)]).execute();
    assert_eq!(run.next(true), Progress::Perform(Step::PressKey(5)));
    assert_eq!(run.next(false), Progress::Failed);
    assert_eq!(run.next(true), Progress::Failed);
}

#[test]
fn joined_sequences_give_joined_steps() {
    let a = vec![key(4, 1, KeyType::DownUp), ActionEventType::OBSEventAction {}];
    let b = vec![ActionEventType::DelayEventAction { data: 3 }, key(6, 2, KeyType::Up)];
    let joined: Vec<ActionEventType> = a.iter().chain(b.iter()).copied().collect();
    let mut expected = all_steps(&with_sequence(a));
    expected.extend(all_steps(&with_sequence(b)));
    assert_eq!(all_steps(&with_sequence(joined)), expected);
}

#[test]
fn full_presses_leave_no_key_down() {
    let m = with_sequence(vec![
        key(4, 1, KeyType::DownUp),
        key(5, 1, KeyType::DownUp),
        key(4, 1, KeyType::DownUp),
    ]);
    for code in [4u32, 5] {
        let steps = all_steps(&m);
        let presses = steps.iter().filter(|s| **s == Step::PressKey(code)).count();
        let releases = steps.iter().filter(|s| **s == Step::ReleaseKey(code)).count();
        assert_eq!(presses, releases);
    }
}

#[test]
fn sender_delays_after_every_event() {
    for delay in [0u64, 12, 20] {
        assert_eq!(keypress_executor_sender(SenderEvent::Started, delay), SenderAction::Receive);
        assert_eq!(
            keypress_executor_sender(SenderEvent::Received { event: true }, delay),
            SenderAction::Send
        );
        assert_eq!(
            keypress_executor_sender(SenderEvent::Received { event: false }, delay),
            SenderAction::Receive
        );
        for ok in [true, false] {
            assert_eq!(
                keypress_executor_sender(SenderEvent::Sent { ok }, delay),
                SenderAction::Delay(delay)
            );
        }
        assert_eq!(keypress_executor_sender(SenderEvent::Delayed, delay), SenderAction::Receive);
    }
}

#[test]
fn delay_is_twenty_milliseconds_at_most() {
    assert_eq!(keypress_delay(0), 0);
    assert_eq!(keypress_delay(19), 19);
    assert_eq!(keypress_delay(20), 20);
    assert_eq!(keypress_delay(21), 20);
    assert_eq!(keypress_delay(u64::MAX), 20);
    assert_eq!(
        keypress_executor_sender(SenderEvent::Sent { ok: true }, 1000),
        SenderAction::Delay(20)
    );
}

#[test]
fn one_delay_comes_between_two_sends() {
    // Whether each wait brings an event, and whether the system takes the event.
    let mut waits = vec![true, false, false, true, true].into_iter();
    let mut taken = vec![false, true, true].into_iter();
    let mut actions = vec![];
    let mut last = SenderEvent::Started;
    loop {
        let action = keypress_executor_sender(last, 10);
        last = match action {
            SenderAction::Receive => match waits.next() {
                Some(event) => SenderEvent::Received { event },
                None => break,
            },
            SenderAction::Send => SenderEvent::Sent { ok: taken.next().unwrap() },
            SenderAction::Delay(_) => SenderEvent::Delayed,
        };
        actions.push(action);
    }
    let (receive, send, delay) =
        (SenderAction::Receive, SenderAction::Send, SenderAction::Delay(10));
    assert_eq!(
        actions,
        vec![
            receive, send, delay, receive, receive, receive, send, delay, receive, send, delay
        ]
    );
}

use std::collections::HashMap;
use wooting_macro_backend::backend::{
    InputEvent, MacroBackend, Reaction, SetMacrosError, Started,
};
use wooting_macro_backend::keys::{HidTable, KeysPressed};
use wooting_macro_backend::lookup::TriggerError;
use wooting_macro_backend::model::{
    Collection, Macro, MacroData, MacroType, TriggerEventType,
};
use wooting_macro_backend::onhold::{macros_to_stop, onhold_next, HoldAction, HoldEvent};
use wooting_macro_backend::plugin::MouseButton;

fn keys(data: Vec<u32>) -> TriggerEventType {
    TriggerEventType::KeyPressEvent { data, allow_while_other_keys: false }
}

fn button(code: u32) -> TriggerEventType {
    TriggerEventType::MouseEvent { data: MouseButton { code } }
}

fn named(name: &str, trigger: TriggerEventType, macro_type: MacroType) -> Macro {
    Macro {
        name: name.to_string(),
        icon: "".to_string(),
        sequence: vec![],
        macro_type,
        trigger,
        active: true,
    }
}

fn collection(macros: Vec<Macro>, active: bool) -> Collection {
    Collection { name: "c".to_string(), icon: "".to_string(), macros, active }
}

/// Two collections: a single-key macro, a combination and a mouse macro; and two held macros.
fn sample() -> MacroData {
    MacroData {
        data: vec![
            collection(
                vec![
                    named("single", keys(vec![4]), MacroType::Single),
                    named("combo", keys(vec![224, 225, 5]), MacroType::Single),
                    named("right", button(0x102), MacroType::Single),
                    named("left", button(0x101), MacroType::Single),
                ],
                true,
            ),
            collection(
                vec![
                    named("held", keys(vec![224, 6]), MacroType::OnHold),
                    named("held too", keys(vec![7]), MacroType::OnHold),
                    named("toggle", keys(vec![8]), MacroType::Toggle),
                ],
                true,
            ),
        ],
    }
}

fn backend() -> MacroBackend<u32> {
    MacroBackend::new(sample(), 42).unwrap()
}

/// Key `n` has the HID code `n`, except for keys from 1000 on, which have none; button `n` has the
/// code `0x100 + n`, except for buttons from 10 on, which have none.
fn table() -> HidTable {
    HidTable {
        keys: (1u64..1000).map(|k| (k, k as u32)).collect(),
        buttons: (1u64..10).map(|b| (b, 0x100 + b as u32)).collect(),
    }
}

fn names(reaction: &Reaction) -> Vec<&str> {
    reaction.executions.iter().map(|e| e.macros.name.as_str()).collect()
}

fn press(backend: &MacroBackend<u32>, held: &mut KeysPressed, key: u64) -> Reaction {
    backend.handle_event(held, &table(), InputEvent::KeyPress { key })
}

#[test]
fn fresh_backend_listens_and_holds_nothing() {
    let backend = backend();
    assert!(backend.is_listening);
    assert_eq!(backend.config, 42);
    assert_eq!(backend.data.data.len(), 2);
    assert!(backend.running_macros().is_empty());
    assert_eq!(backend.triggers.macros_for(4)[0].name, "single");
}

#[test]
fn backend_of_broken_data_is_an_error() {
    let data = MacroData {
        data: vec![collection(vec![named("m", keys(vec![]), MacroType::Single)], true)],
    };
    assert_eq!(MacroBackend::new(data, ()).unwrap_err(), TriggerError::NoTriggerKeys);
}

#[test]
fn single_key_fires_and_is_consumed() {
    let backend = backend();
    let mut held = KeysPressed::default();
    let reaction = press(&backend, &mut held, 4);
    assert_eq!(names(&reaction), vec!["single"]);
    assert!(!reaction.pass);
    assert_eq!(reaction.released, None);
    assert_eq!(held.converted(&table()), vec![4]);
}

#[test]
fn key_without_macro_goes_on() {
    let backend = backend();
    let mut held = KeysPressed::default();
    let reaction = press(&backend, &mut held, 9);
    assert!(reaction.pass);
    assert!(names(&reaction).is_empty());
    // With another key held first, the single key no longer fires.
    let reaction = press(&backend, &mut held, 4);
    assert!(reaction.pass);
    assert!(names(&reaction).is_empty());
}

#[test]
fn combination_fires_with_modifiers_in_any_order() {
    for order in [[224u64, 225], [225, 224]] {
        let backend = backend();
        let mut held = KeysPressed::default();
        for modifier in order {
            assert!(press(&backend, &mut held, modifier).pass);
        }
        let reaction = press(&backend, &mut held, 5);
        assert_eq!(names(&reaction), vec!["combo"]);
        assert_eq!(reaction.executions[0].lift_keys, Some(vec![224, 225, 5]));
        assert!(!reaction.pass);
    }
}

#[test]
fn foreign_first_key_hides_the_combination() {
    let backend = backend();
    let mut held = KeysPressed::default();
    for key in [9, 224, 225] {
        assert!(press(&backend, &mut held, key).pass);
    }
    assert!(press(&backend, &mut held, 5).pass);
}

#[test]
fn held_key_that_repeats_fires_again() {
    let backend = backend();
    let mut held = KeysPressed::default();
    assert!(!press(&backend, &mut held, 4).pass);
    assert!(!press(&backend, &mut held, 4).pass);
    assert_eq!(held.converted(&table()), vec![4]);
}

#[test]
fn release_goes_on_and_reports_the_code() {
    let backend = backend();
    let mut held = KeysPressed::default();
    press(&backend, &mut held, 9);
    press(&backend, &mut held, 4);
    let reaction = backend.handle_event(&mut held, &table(), InputEvent::KeyRelease { key: 9 });
    assert!(reaction.pass);
    assert!(reaction.executions.is_empty());
    assert_eq!(reaction.released, Some(9));
    assert_eq!(held.converted(&table()), vec![4]);
    let reaction = backend.handle_event(&mut held, &table(), InputEvent::KeyRelease { key: 1000 });
    assert!(reaction.pass);
    assert_eq!(reaction.released, None);
}

#[test]
fn left_button_is_never_consumed() {
    let backend = backend();
    let mut held = KeysPressed::default();
    let left = InputEvent::ButtonPress { button: 1, is_left: true };
    let reaction = backend.handle_event(&mut held, &table(), left);
    assert_eq!(names(&reaction), vec!["left"]);
    assert!(reaction.pass);
    let right = InputEvent::ButtonPress { button: 2, is_left: false };
    let reaction = backend.handle_event(&mut held, &table(), right);
    assert_eq!(names(&reaction), vec!["right"]);
    assert!(!reaction.pass);
    let middle = InputEvent::ButtonPress { button: 3, is_left: false };
    assert!(backend.handle_event(&mut held, &table(), middle).pass);
    // A button without a code counts as the left one, but is not spared.
    let unknown = InputEvent::ButtonPress { button: 10, is_left: false };
    let reaction = backend.handle_event(&mut held, &table(), unknown);
    assert_eq!(names(&reaction), vec!["left"]);
    assert!(!reaction.pass);
}

#[test]
fn button_fires_whatever_keys_are_held() {
    let backend = backend();
    let mut held = KeysPressed::default();
    press(&backend, &mut held, 9);
    let right = InputEvent::ButtonPress { button: 2, is_left: false };
    let reaction = backend.handle_event(&mut held, &table(), right);
    assert_eq!(names(&reaction), vec!["right"]);
    assert_eq!(held.converted(&table()), vec![9]);
}

#[test]
fn other_events_go_on() {
    let backend = backend();
    let mut held = KeysPressed::default();
    for event in [InputEvent::MouseMove, InputEvent::Wheel] {
        let reaction = backend.handle_event(&mut held, &table(), event);
        assert!(reaction.pass);
        assert!(reaction.executions.is_empty());
        assert_eq!(reaction.released, None);
    }
}

#[test]
fn button_release_goes_on_and_reports_its_code() {
    let backend = backend();
    let mut held = KeysPressed::default();
    press(&backend, &mut held, 9);
    for (number, code) in [(2u64, 0x102u32), (99, 0x101)] {
        let event = InputEvent::ButtonRelease { button: number };
        let reaction = backend.handle_event(&mut held, &table(), event);
        assert!(reaction.pass);
        assert!(reaction.executions.is_empty());
        assert_eq!(reaction.released, Some(code));
        assert_eq!(held.converted(&table()), vec![9]);
    }
}

#[test]
fn deaf_backend_lets_everything_pass_and_follows_no_keys() {
    let mut backend = backend();
    backend.set_is_listening(false);
    let mut held = KeysPressed::default();
    for event in [
        InputEvent::KeyPress { key: 4 },
        InputEvent::KeyRelease { key: 4 },
        InputEvent::ButtonPress { button: 2, is_left: false },
        InputEvent::ButtonRelease { button: 2 },
    ] {
        let reaction = backend.handle_event(&mut held, &table(), event);
        assert!(reaction.pass);
        assert!(reaction.executions.is_empty());
        assert_eq!(reaction.released, None);
    }
    press(&backend, &mut held, 9);
    assert!(held.converted(&table()).is_empty());
    backend.set_is_listening(true);
    assert!(!press(&backend, &mut held, 4).pass);
}

#[test]
fn macro_starts_by_its_type() {
    let mut backend = backend();
    let single = backend.data.data[0].macros[0].clone();
    assert!(matches!(backend.start_macro(&single, 1), Started::Once));
    let toggle = backend.data.data[1].macros[2].clone();
    assert!(matches!(backend.start_macro(&toggle, 2), Started::Nothing));
    let stranger = named("stranger", keys(vec![4]), MacroType::Single);
    assert!(matches!(backend.start_macro(&stranger, 3), Started::Nothing));
    assert!(backend.running_macros().is_empty());
    let held = backend.data.data[1].macros[0].clone();
    match backend.start_macro(&held, 4) {
        Started::Held { macro_id, abort } => {
            assert_eq!(macro_id, "1_0");
            assert_eq!(abort, None);
        }
        other => panic!("{:?}", other),
    }
    assert_eq!(backend.running_macros(), vec!["1_0"]);
}

#[test]
fn restarting_a_held_macro_aborts_its_task() {
    let mut backend = backend();
    let held = backend.data.data[1].macros[0].clone();
    backend.start_macro(&held, 5);
    match backend.start_macro(&held, 6) {
        Started::Held { abort, .. } => assert_eq!(abort, Some(5)),
        other => panic!("{:?}", other),
    }
    assert_eq!(backend.running_macros(), vec!["1_0"]);
}

#[test]
fn release_of_any_trigger_key_ends_the_held_macro() {
    for code in [224u32, 6] {
        let mut backend = backend();
        let held = backend.data.data[1].macros[0].clone();
        let other = backend.data.data[1].macros[1].clone();
        backend.start_macro(&held, 5);
        backend.start_macro(&other, 6);
        assert_eq!(onhold_next(&backend.onhold_states, "1_0", HoldEvent::Started), HoldAction::Execute);
        assert_eq!(backend.release_key(code), vec![5]);
        assert_eq!(backend.running_macros(), vec!["1_1"]);
        assert_eq!(onhold_next(&backend.onhold_states, "1_0", HoldEvent::Paused), HoldAction::Stop);
        assert_eq!(onhold_next(&backend.onhold_states, "1_1", HoldEvent::Paused), HoldAction::Execute);
        // Nothing is left to abort.
        assert!(backend.release_key(code).is_empty());
    }
}

#[test]
fn release_ends_only_enabled_held_macros() {
    let mut data = sample();
    assert_eq!(macros_to_stop(&data, 224), vec!["1_0"]);
    assert_eq!(macros_to_stop(&data, 7), vec!["1_1"]);
    assert!(macros_to_stop(&data, 4).is_empty());
    data.data[1].macros[0].active = false;
    assert!(macros_to_stop(&data, 224).is_empty());
    data.data[1].active = false;
    assert!(macros_to_stop(&data, 7).is_empty());
    data.data.push(collection(
        vec![
            named("x", button(7), MacroType::OnHold),
            named("y", keys(vec![7, 9]), MacroType::OnHold),
            named("z", keys(vec![9, 7]), MacroType::OnHold),
        ],
        true,
    ));
    assert_eq!(macros_to_stop(&data, 7), vec!["2_0", "2_1", "2_2"]);
    assert_eq!(macros_to_stop(&data, 9), vec!["2_1", "2_2"]);
}

#[test]
fn held_macro_on_a_button_runs_until_the_button_goes_up() {
    let mut data = sample();
    data.data[0].macros[2].macro_type = MacroType::OnHold;
    let mut backend = MacroBackend::new(data, 0u32).unwrap();
    let mut held = KeysPressed::default();
    let down = InputEvent::ButtonPress { button: 2, is_left: false };
    let reaction = backend.handle_event(&mut held, &table(), down);
    assert_eq!(names(&reaction), vec!["right"]);
    let right = backend.data.data[0].macros[2].clone();
    match backend.start_macro(&right, 5) {
        Started::Held { macro_id, abort } => {
            assert_eq!(macro_id, "0_2");
            assert_eq!(abort, None);
        }
        other => panic!("{:?}", other),
    }
    assert_eq!(onhold_next(&backend.onhold_states, "0_2", HoldEvent::Started), HoldAction::Execute);

    // The release of another button does not end it.
    let other = InputEvent::ButtonRelease { button: 99 };
    let code = backend.handle_event(&mut held, &table(), other).released.unwrap();
    assert!(backend.release_key(code).is_empty());
    assert_eq!(backend.running_macros(), vec!["0_2"]);

    let up = InputEvent::ButtonRelease { button: 2 };
    let code = backend.handle_event(&mut held, &table(), up).released.unwrap();
    assert_eq!(backend.release_key(code), vec![5]);
    assert!(backend.running_macros().is_empty());
    assert_eq!(onhold_next(&backend.onhold_states, "0_2", HoldEvent::Paused), HoldAction::Stop);
    assert!(backend.release_key(code).is_empty());
}

#[test]
fn held_macro_on_a_key_runs_until_the_key_goes_up() {
    let mut backend = backend();
    let mut held = KeysPressed::default();
    assert_eq!(names(&press(&backend, &mut held, 7)), vec!["held too"]);
    let macros = backend.data.data[1].macros[1].clone();
    backend.start_macro(&macros, 5);
    assert_eq!(backend.running_macros(), vec!["1_1"]);
    let up = InputEvent::KeyRelease { key: 7 };
    let code = backend.handle_event(&mut held, &table(), up).released.unwrap();
    assert_eq!(backend.release_key(code), vec![5]);
    assert!(backend.running_macros().is_empty());
}

#[test]
fn held_task_runs_pauses_and_ends() {
    let mut backend = backend();
    let held = backend.data.data[1].macros[1].clone();
    assert_eq!(onhold_next(&backend.onhold_states, "1_1", HoldEvent::Started), HoldAction::Stop);
    backend.start_macro(&held, 1);
    let states = &backend.onhold_states;
    assert_eq!(onhold_next(states, "1_1", HoldEvent::Started), HoldAction::Execute);
    assert_eq!(
        onhold_next(states, "1_1", HoldEvent::Executed { ok: true }),
        HoldAction::Sleep(100)
    );
    assert_eq!(onhold_next(states, "1_1", HoldEvent::Paused), HoldAction::Execute);
    assert_eq!(onhold_next(states, "1_1", HoldEvent::Executed { ok: false }), HoldAction::Stop);
}

#[test]
fn new_macros_replace_data_and_table() {
    let mut backend = backend();
    let data = MacroData {
        data: vec![collection(vec![named("new", keys(vec![30]), MacroType::Single)], true)],
    };
    let running = backend.running_macros();
    assert_eq!(backend.set_macros::<()>(Ok(()), data, &running).unwrap(), Vec::<u64>::new());
    assert_eq!(backend.data.data[0].macros[0].name, "new");
    assert!(backend.triggers.macros_for(4).is_empty());
    assert_eq!(backend.triggers.macros_for(30)[0].name, "new");
    assert_eq!(backend.config, 42);
}

#[test]
fn refused_macros_change_nothing() {
    let mut backend = backend();
    let held = backend.data.data[1].macros[0].clone();
    backend.start_macro(&held, 5);
    let running = backend.running_macros();

    let result = backend.set_macros(Err("disk full"), MacroData { data: vec![] }, &running);
    assert!(matches!(result, Err(SetMacrosError::NotWritten("disk full"))));

    let broken = MacroData {
        data: vec![collection(vec![named("m", keys(vec![]), MacroType::Single)], true)],
    };
    let result = backend.set_macros::<()>(Ok(()), broken, &running);
    assert!(matches!(result, Err(SetMacrosError::Trigger(TriggerError::NoTriggerKeys))));

    assert_eq!(backend.data.data.len(), 2);
    assert_eq!(backend.triggers.macros_for(4)[0].name, "single");
    assert_eq!(backend.running_macros(), vec!["1_0"]);
}

#[test]
fn disabled_and_deleted_macros_are_stopped() {
    // What to change in the sample, and whether "1_0" and "1_1" go on.
    let cases: Vec<(fn(&mut MacroData), bool, bool)> = vec![
        (|_| (), true, true),
        (|d| d.data[1].macros[0].active = false, false, true),
        (|d| d.data[1].active = false, false, false),
        (|d| d.data[1].macros.truncate(1), true, false),
        (|d| d.data.truncate(1), false, false),
    ];
    for (change, first, second) in cases {
        let mut backend = backend();
        for (index, task) in [(0usize, 5u64), (1, 6)] {
            let held = backend.data.data[1].macros[index].clone();
            backend.start_macro(&held, task);
        }
        let mut data = sample();
        change(&mut data);
        let running = backend.running_macros();
        assert_eq!(running.len(), 2);
        let mut aborted = backend.set_macros::<()>(Ok(()), data, &running).unwrap();
        aborted.sort();
        let mut left = backend.running_macros();
        left.sort();
        let mut expected_aborted = vec![];
        let mut expected_left = vec![];
        for (id, task, on) in [("1_0", 5u64, first), ("1_1", 6, second)] {
            if on {
                expected_left.push(id.to_string());
            } else {
                expected_aborted.push(task);
            }
        }
        assert_eq!(aborted, expected_aborted);
        assert_eq!(left, expected_left);
    }
}

#[test]
fn unreadable_identifiers_are_left_alone() {
    let mut backend = backend();
    let held = backend.data.data[1].macros[0].clone();
    backend.start_macro(&held, 5);
    let running = vec!["nonsense".to_string()];
    let aborted =
        backend.set_macros::<()>(Ok(()), MacroData { data: vec![] }, &running).unwrap();
    assert!(aborted.is_empty());
    assert_eq!(backend.running_macros(), vec!["1_0"]);
}

#[test]
fn many_held_macros_are_followed() {
    let macros: Vec<Macro> = (0..60u32)
        .map(|i| named(&format!("m{}", i), keys(vec![i + 1]), MacroType::OnHold))
        .collect();
    let data = MacroData { data: vec![collection(macros.clone(), true)] };
    let mut backend = MacroBackend::new(data, 0u32).unwrap();
    for (i, m) in macros.iter().enumerate() {
        backend.start_macro(m, 100 + i as u64);
    }
    assert_eq!(backend.running_macros().len(), 60);
    for i in 0..60u32 {
        assert_eq!(backend.release_key(i + 1), vec![100 + i as u64]);
        assert_eq!(backend.running_macros().len(), 59 - i as usize);
    }
}

#[test]
fn identifier_of_an_earlier_twin_is_used_and_ended() {
    // What the earlier macro of the same name and trigger is like.
    let cases: Vec<(MacroType, bool)> = vec![
        (MacroType::OnHold, false),
        (MacroType::Single, true),
        (MacroType::Toggle, false),
        (MacroType::OnHold, true),
    ];
    for (twin_type, twin_active) in cases {
        let mut data = sample();
        let mut twin = named("held", keys(vec![224, 6]), twin_type);
        twin.active = twin_active;
        data.data[0].macros.push(twin);
        let mut backend = MacroBackend::new(data, 0u32).unwrap();
        let held = backend.data.data[1].macros[0].clone();
        match backend.start_macro(&held, 5) {
            Started::Held { macro_id, .. } => assert_eq!(macro_id, "0_4"),
            other => panic!("{:?}", other),
        }
        assert_eq!(backend.running_macros(), vec!["0_4"]);
        assert_eq!(backend.release_key(6), vec![5]);
        assert!(backend.running_macros().is_empty());
        assert_eq!(
            onhold_next(&backend.onhold_states, "0_4", HoldEvent::Paused),
            HoldAction::Stop
        );
    }
}

#[test]
fn release_stops_a_macro_at_its_own_place_and_at_its_twin() {
    let mut data = sample();
    let mut twin = named("held", keys(vec![224, 6]), MacroType::OnHold);
    twin.active = false;
    data.data[0].macros.push(twin);
    assert_eq!(macros_to_stop(&data, 6), vec!["1_0", "0_4"]);
    // A twin of another name or another trigger is none.
    data.data[0].macros[4].name = "other".to_string();
    assert_eq!(macros_to_stop(&data, 6), vec!["1_0"]);
    data.data[0].macros[4].name = "held".to_string();
    data.data[0].macros[4].trigger = keys(vec![6, 224]);
    assert_eq!(macros_to_stop(&data, 6), vec!["1_0"]);
}

#[test]
fn no_running_macro_loses_its_task() {
    let macros: Vec<Macro> = (0..4u32)
        .map(|i| named(&format!("m{}", i), keys(vec![i + 1, 9]), MacroType::OnHold))
        .collect();
    let data = MacroData { data: vec![collection(macros.clone(), true)] };
    let mut backend = MacroBackend::new(data, 0u32).unwrap();
    for (i, m) in macros.iter().enumerate() {
        backend.start_macro(m, 10 + i as u64);
    }
    // Starting one anew aborts its own task only.
    match backend.start_macro(&macros[1], 20) {
        Started::Held { abort, .. } => assert_eq!(abort, Some(11)),
        other => panic!("{:?}", other),
    }
    assert_eq!(backend.release_key(3), vec![12]);
    let mut data = MacroData { data: vec![collection(macros, true)] };
    data.data[0].macros[0].active = false;
    let running = backend.running_macros();
    assert_eq!(backend.set_macros::<()>(Ok(()), data, &running).unwrap(), vec![10]);
    // The tasks that are left, each once.
    assert_eq!(backend.release_key(9), vec![20, 13]);
    assert!(backend.running_macros().is_empty());
}

#[test]
fn configuration_is_kept_once_it_was_written() {
    let mut backend = backend();
    assert_eq!(backend.set_config(Err("disk full"), 7), Err("disk full"));
    assert_eq!(backend.config, 42);
    assert_eq!(backend.set_config::<()>(Ok(()), 7), Ok(()));
    assert_eq!(backend.config, 7);
}

#[test]
fn table_of_codes_is_plain_data() {
    let table = HidTable { keys: HashMap::new(), buttons: HashMap::new() };
    let backend = backend();
    let mut held = KeysPressed::default();
    let reaction = backend.handle_event(&mut held, &table, InputEvent::KeyPress { key: 4 });
    assert!(reaction.pass);
    assert_eq!(held.converted(&table), vec![0]);
}

use wooting_macro_backend::matching::{
    check_macro_execution_efficiently, execute_macro, find_macro_indices, Launch,
};
use wooting_macro_backend::model::{
    Collection, Macro, MacroData, MacroType, TriggerEventType,
};
use wooting_macro_backend::plugin::MouseButton;

fn keys(data: Vec<u32>) -> TriggerEventType {
    TriggerEventType::KeyPressEvent { data, allow_while_other_keys: false }
}

fn button(code: u32) -> TriggerEventType {
    TriggerEventType::MouseEvent { data: MouseButton { code } }
}

fn named(name: &str, trigger: TriggerEventType) -> Macro {
    Macro {
        name: name.to_string(),
        icon: "".to_string(),
        sequence: vec![],
        macro_type: MacroType::Single,
        trigger,
        active: true,
    }
}

fn fires(trigger: TriggerEventType, pressed: &[u32]) -> bool {
    let (fired, found) =
        check_macro_execution_efficiently(&pressed.to_vec(), &vec![named("m", trigger)]);
    assert_eq!(fired, found.len() == 1);
    fired
}

#[test]
fn single_key_must_be_all_that_is_pressed() {
    assert!(fires(keys(vec![4]), &[4]));
    assert!(!fires(keys(vec![4]), &[5]));
    assert!(!fires(keys(vec![4]), &[5, 4]));
    assert!(!fires(keys(vec![4]), &[4, 5]));
    assert!(!fires(keys(vec![4]), &[]));
}

#[test]
fn modifiers_come_in_any_order_before_the_last_key() {
    let trigger = || keys(vec![224, 225, 4]);
    assert!(fires(trigger(), &[224, 225, 4]));
    assert!(fires(trigger(), &[225, 224, 4]));
    assert!(fires(trigger(), &[225, 9, 224, 4]));
    assert!(!fires(trigger(), &[224, 4, 225]));
    assert!(!fires(trigger(), &[224, 4]));
    assert!(!fires(trigger(), &[4, 224, 225]));
    assert!(!fires(trigger(), &[4]));
}

#[test]
fn two_and_four_keys_are_combinations_and_five_never_fire() {
    assert!(fires(keys(vec![224, 4]), &[224, 4]));
    assert!(fires(keys(vec![1, 2, 3, 4]), &[3, 2, 1, 4]));
    assert!(!fires(keys(vec![1, 2, 3, 4]), &[3, 2, 4]));
    assert!(!fires(keys(vec![1, 2, 3, 4, 5]), &[1, 2, 3, 4, 5]));
    assert!(!fires(keys(vec![]), &[1]));
}

#[test]
fn last_key_is_no_stand_in_for_a_modifier() {
    assert!(!fires(keys(vec![4, 4]), &[4]));
    assert!(fires(keys(vec![4, 4]), &[4, 4]));
}

#[test]
fn mouse_button_must_be_all_that_is_pressed() {
    assert!(fires(button(0x102), &[0x102]));
    assert!(!fires(button(0x102), &[0x103]));
    assert!(!fires(button(0x102), &[4, 0x102]));
}

#[test]
fn fired_macros_keep_their_order_and_combinations_lift_their_keys() {
    let overview = vec![
        named("combo", keys(vec![224, 4])),
        named("other", keys(vec![224, 5])),
        named("longer", keys(vec![224, 225, 4])),
        named("single", keys(vec![4])),
    ];
    let (fired, found) = check_macro_execution_efficiently(&vec![225, 224, 4], &overview);
    assert!(fired);
    let names: Vec<&str> = found.iter().map(|e| e.macros.name.as_str()).collect();
    assert_eq!(names, vec!["combo", "longer"]);
    assert_eq!(found[0].lift_keys, Some(vec![224, 4]));
    assert_eq!(found[1].lift_keys, Some(vec![224, 225, 4]));

    let (fired, found) = check_macro_execution_efficiently(&vec![4], &overview);
    assert!(fired);
    assert_eq!(found.len(), 1);
    assert_eq!(found[0].macros.name, "single");
    assert_eq!(found[0].lift_keys, None);

    let (fired, found) = check_macro_execution_efficiently(&vec![7], &overview);
    assert!(!fired);
    assert!(found.is_empty());
}

#[test]
fn first_macro_of_the_same_name_and_trigger_is_found() {
    let collection = |macros: Vec<Macro>| Collection {
        name: "c".to_string(),
        icon: "".to_string(),
        macros,
        active: false,
    };
    let data = MacroData {
        data: vec![
            collection(vec![]),
            collection(vec![named("a", keys(vec![1])), named("a", keys(vec![2]))]),
            collection(vec![named("a", keys(vec![2])), named("b", keys(vec![2]))]),
        ],
    };
    assert_eq!(find_macro_indices(&data, &named("a", keys(vec![1]))), Some((1, 0)));
    assert_eq!(find_macro_indices(&data, &named("a", keys(vec![2]))), Some((1, 1)));
    assert_eq!(find_macro_indices(&data, &named("b", keys(vec![2]))), Some((2, 1)));
    assert_eq!(find_macro_indices(&data, &named("b", keys(vec![1]))), None);
    assert_eq!(find_macro_indices(&data, &named("a", button(1))), None);
}

#[test]
fn launch_follows_the_macro_type() {
    let mut m = named("m", keys(vec![1]));
    assert!(matches!(execute_macro(&m, 2, 3), Launch::Once));
    m.macro_type = MacroType::Toggle;
    assert!(matches!(execute_macro(&m, 2, 3), Launch::Ignore));
    m.macro_type = MacroType::OnHold;
    match execute_macro(&m, 2, 3) {
        Launch::Hold { macro_id } => assert_eq!(macro_id, "2_3"),
        other => panic!("{:?}", other),
    }
}

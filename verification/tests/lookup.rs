use wooting_macro_backend::lookup::{MacroTriggerLookup, TriggerError};
use wooting_macro_backend::model::{
    Collection, Macro, MacroData, MacroType, TriggerEventType,
};
use wooting_macro_backend::plugin::MouseButton;

fn keys(data: Vec<u32>) -> TriggerEventType {
    TriggerEventType::KeyPressEvent { data, allow_while_other_keys: false }
}

fn button(code: u32) -> TriggerEventType {
    TriggerEventType::MouseEvent { data: MouseButton { code } }
}

fn named(name: &str, trigger: TriggerEventType, active: bool) -> Macro {
    Macro {
        name: name.to_string(),
        icon: ":icon:".to_string(),
        sequence: vec![],
        macro_type: MacroType::Single,
        trigger,
        active,
    }
}

fn collection(macros: Vec<Macro>, active: bool) -> Collection {
    Collection { name: "c".to_string(), icon: "i".to_string(), macros, active }
}

fn names(table: &MacroTriggerLookup, key: u32) -> Vec<String> {
    table.macros_for(key).into_iter().map(|m| m.name).collect()
}

#[test]
fn default_data_is_one_empty_active_collection() {
    let data = MacroData::default();
    assert_eq!(data.data.len(), 1);
    assert_eq!(data.data[0].name, "Collection 1");
    assert_eq!(data.data[0].icon, ":smile:");
    assert!(data.data[0].macros.is_empty());
    assert!(data.data[0].active);
    let table = data.extract_triggers().unwrap();
    assert!(table.macros_for(0).is_empty());
}

#[test]
fn macros_are_filed_under_their_lookup_keys_in_order() {
    let data = MacroData {
        data: vec![
            collection(
                vec![
                    named("single", keys(vec![4]), true),
                    named("combo", keys(vec![224, 4, 5]), true),
                    named("off", keys(vec![4]), false),
                    named("mouse", button(0x103), true),
                ],
                true,
            ),
            collection(vec![named("asleep", keys(vec![4]), true)], false),
            collection(
                vec![
                    named("later", keys(vec![4, 9]), true),
                    named("mouse too", button(0x103), true),
                ],
                true,
            ),
        ],
    };
    let table = data.extract_triggers().unwrap();
    assert_eq!(names(&table, 4), vec!["single", "combo", "later"]);
    assert_eq!(names(&table, 224), vec!["combo"]);
    // The last key of a combination is no lookup key.
    assert!(names(&table, 5).is_empty());
    assert!(names(&table, 9).is_empty());
    assert_eq!(names(&table, 0x103), vec!["mouse", "mouse too"]);
}

#[test]
fn key_and_button_with_one_code_share_a_list() {
    let data = MacroData {
        data: vec![collection(
            vec![
                named("key", keys(vec![0x103]), true),
                named("mouse", button(0x103), true),
                named("key again", keys(vec![0x103]), true),
            ],
            true,
        )],
    };
    let table = data.extract_triggers().unwrap();
    assert_eq!(names(&table, 0x103), vec!["key", "mouse", "key again"]);
}

#[test]
fn repeated_modifier_files_the_macro_twice() {
    let data = MacroData { data: vec![collection(vec![named("m", keys(vec![4, 4, 5]), true)], true)] };
    let table = data.extract_triggers().unwrap();
    assert_eq!(names(&table, 4), vec!["m", "m"]);
}

#[test]
fn filed_macros_keep_their_contents() {
    let data = MacroData {
        data: vec![collection(vec![named("m", keys(vec![224, 5]), true)], true)],
    };
    let table = data.extract_triggers().unwrap();
    let found = &table.macros_for(224)[0];
    assert_eq!(found.icon, ":icon:");
    assert_eq!(found.macro_type, MacroType::Single);
    assert!(found.trigger == keys(vec![224, 5]));
    assert!(found.active);
}

#[test]
fn table_of_many_keys_finds_every_macro() {
    let mut macros = vec![];
    for i in 0..100u32 {
        macros.push(named(&format!("k{}", i), keys(vec![i]), true));
        macros.push(named(&format!("b{}", i), button(1000 + i), true));
    }
    for i in 0..100u32 {
        macros.push(named(&format!("c{}", i), keys(vec![i, 500]), true));
    }
    let data = MacroData { data: vec![collection(macros, true)] };
    let table = data.extract_triggers().unwrap();
    for i in 0..100u32 {
        assert_eq!(names(&table, i), vec![format!("k{}", i), format!("c{}", i)]);
        assert_eq!(names(&table, 1000 + i), vec![format!("b{}", i)]);
    }
    assert!(names(&table, 500).is_empty());
}

#[test]
fn combination_without_keys_is_an_error() {
    let data = MacroData {
        data: vec![collection(
            vec![named("fine", keys(vec![4]), true), named("broken", keys(vec![]), true)],
            true,
        )],
    };
    let error = data.extract_triggers().unwrap_err();
    assert_eq!(error, TriggerError::NoTriggerKeys);
    assert_eq!(
        error.message(),
        format!(
            "a trigger key can't be zero, aborting trigger generation: {:#?}",
            Vec::<u32>::new()
        )
    );
}

#[test]
fn disabled_combination_without_keys_does_no_harm() {
    let data = MacroData {
        data: vec![
            collection(vec![named("broken", keys(vec![]), false)], true),
            collection(vec![named("broken", keys(vec![]), true)], false),
        ],
    };
    assert!(data.extract_triggers().is_ok());
}

#[test]
fn triggers_compare_by_contents() {
    assert!(keys(vec![1, 2]) == keys(vec![1, 2]));
    assert!(keys(vec![1, 2]) != keys(vec![2, 1]));
    assert!(keys(vec![1]) != keys(vec![1, 2]));
    assert!(
        keys(vec![1])
            != TriggerEventType::KeyPressEvent { data: vec![1], allow_while_other_keys: true }
    );
    assert!(button(1) == button(1));
    assert!(button(1) != button(2));
    assert!(button(1) != keys(vec![1]));
}

#[test]
fn copies_keep_the_contents() {
    let data = MacroData {
        data: vec![collection(
            vec![named("a", keys(vec![1, 2]), true), named("b", button(3), false)],
            false,
        )],
    };
    assert_eq!(format!("{:?}", data.clone()), format!("{:?}", data));
}

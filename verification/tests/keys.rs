use std::collections::HashMap;
use wooting_macro_backend::keys::{HidTable, KeysPressed};

fn table() -> HidTable {
    HidTable {
        keys: HashMap::from([(10, 4), (11, 5), (12, 224)]),
        buttons: HashMap::from([(1, 0x101), (2, 0x102)]),
    }
}

fn held(keys: &[u64]) -> KeysPressed {
    let mut pressed = KeysPressed::default();
    for key in keys {
        pressed.press(*key);
    }
    pressed
}

#[test]
fn unknown_keys_and_buttons_have_a_fallback_code() {
    let table = table();
    assert_eq!(table.code_of_key(12), 224);
    assert_eq!(table.code_of_key(99), 0);
    assert_eq!(table.code_of_button(2), 0x102);
    assert_eq!(table.code_of_button(99), 0x101);
}

#[test]
fn keys_keep_the_order_of_pressing() {
    assert_eq!(held(&[12, 10, 11]).converted(&table()), vec![224, 4, 5]);
    assert!(held(&[]).converted(&table()).is_empty());
}

#[test]
fn pressing_a_held_key_again_changes_nothing() {
    assert_eq!(held(&[12, 10, 12, 10, 11]).converted(&table()), vec![224, 4, 5]);
}

#[test]
fn keys_without_a_code_stay_apart() {
    assert_eq!(held(&[98, 99, 98]).converted(&table()), vec![0, 0]);
}

#[test]
fn release_undoes_press() {
    let mut pressed = held(&[12, 10]);
    pressed.press(11);
    pressed.release(11);
    assert_eq!(pressed.converted(&table()), vec![224, 4]);
    pressed.release(12);
    assert_eq!(pressed.converted(&table()), vec![4]);
    pressed.release(77);
    assert_eq!(pressed.converted(&table()), vec![4]);
}

use wooting_macro_backend::backend::MacroBackend;
use wooting_macro_backend::macro_id::{generate_macro_id, parse_macro_id};
use wooting_macro_backend::model::MacroData;

#[test]
fn identifier_is_the_two_indices_in_decimal() {
    assert_eq!(generate_macro_id(0, 0), "0_0");
    assert_eq!(generate_macro_id(3, 17), "3_17");
    assert_eq!(generate_macro_id(10, 205), "10_205");
    assert_eq!(
        generate_macro_id(usize::MAX, 9),
        format!("{}_{}", usize::MAX, 9)
    );
}

#[test]
fn identifier_reads_back() {
    for c in [0usize, 1, 9, 10, 99, 12345, usize::MAX] {
        for m in [0usize, 7, 10, 100, usize::MAX - 1, usize::MAX] {
            assert_eq!(parse_macro_id(&generate_macro_id(c, m)), Some((c, m)));
        }
    }
}

#[test]
fn identifier_with_plus_signs_and_leading_zeros_is_read() {
    assert_eq!(parse_macro_id("+4_007"), Some((4, 7)));
    assert_eq!(parse_macro_id("4_+7"), Some((4, 7)));
}

#[test]
fn text_of_another_shape_is_no_identifier() {
    for text in [
        "", "_", "1", "1_", "_1", "1_2_3", "1__2", "a_1", "1_b", "-1_2", "1_-2", "+_1", "1_+",
        " 1_2", "1_2 ", "1 2", "++1_2", "1_٣",
    ] {
        assert_eq!(parse_macro_id(text), None, "{:?}", text);
    }
}

#[test]
fn index_that_does_not_fit_is_refused() {
    let too_large = format!("{}0", usize::MAX);
    assert_eq!(parse_macro_id(&format!("{}_1", too_large)), None);
    assert_eq!(parse_macro_id(&format!("1_{}", too_large)), None);
    // One more than the largest index.
    assert_eq!(parse_macro_id("1_18446744073709551616"), None);
}

#[test]
fn reading_agrees_with_splitting_and_parsing() {
    for text in ["1_2", "+1_2", "1_2_3", "12", "007_8", "_", "é_1", "1_é", "99999999999999999999_1"] {
        let parts: Vec<&str> = text.split('_').collect();
        let expected = if parts.len() == 2 {
            match (parts[0].parse::<usize>(), parts[1].parse::<usize>()) {
                (Ok(c), Ok(m)) => Some((c, m)),
                _ => None,
            }
        } else {
            None
        };
        assert_eq!(parse_macro_id(text), expected, "{:?}", text);
    }
}

#[test]
fn backend_reads_identifiers() {
    let backend = MacroBackend::new(MacroData::default(), ()).unwrap();
    assert_eq!(backend.parse_macro_id("3_4"), Some((3, 4)));
    assert_eq!(backend.parse_macro_id("3-4"), None);
}

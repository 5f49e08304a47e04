use awkc::columns::Columns;
use awkc::text::{split_bytes, starts_with};
use awkc::value::{truthy, Value, FLOAT_ONE, FLOAT_ZERO};

#[test]
fn test_starts_with() {
    assert!(starts_with(&[0, 1, 2, 3, 4, 5], &[0], 0));
    assert!(!starts_with(&[0, 1, 2, 3, 4, 5], &[0, 1, 2, 3, 4, 5, 6], 0));
    assert!(!starts_with(&[0, 1, 2, 3, 4, 5], &[0, 1, 3, 3, 4, 5], 0));
    assert!(starts_with(&[0, 1, 2, 3, 4, 5], &[0, 1, 2, 3, 4, 5], 0));
    assert!(starts_with(&[0, 1, 2, 3, 4, 5], &[1], 1));
    assert!(starts_with(&[0, 1, 2, 3, 4, 5], &[5], 5));
    assert!(starts_with(&[0, 1, 2, 3, 4, 5], &[2, 3, 4, 5], 2));
    assert!(!starts_with(&[0, 1, 2, 3, 4, 5], &[2, 3, 4, 5, 6], 2));
    assert!(!starts_with(&[], &[0], 2));
    assert!(!starts_with(&[], &[0], 0));
    assert!(!starts_with(&[], &[], 1));
    assert!(starts_with(&[], &[], 0));
}

fn b(s: &str) -> Vec<u8> {
    s.as_bytes().to_vec()
}

#[test]
fn test_two_inputs_records_and_fields() {
    let mut cols = Columns::new(vec![b("a b c\nd e f\ng h i\n"), b("1 2 3\n4 5 6\n7 8 9\n")]);
    assert!(cols.next_line());
    assert_eq!(cols.get(0), b("a b c"));
    assert_eq!(cols.get(1), b("a"));
    assert_eq!(cols.get(2), b("b"));
    assert_eq!(cols.get(3), b("c"));
    assert!(cols.next_line());
    assert_eq!(cols.get(3), b("f"));
    assert_eq!(cols.get(2), b("e"));
    assert_eq!(cols.get(1), b("d"));
    assert_eq!(cols.get(0), b("d e f"));
}

#[test]
fn test_records_cross_files_and_exhaust() {
    let mut cols = Columns::new(vec![b("a\nb\n"), b(""), b("c")]);
    let mut seen = Vec::new();
    while cols.next_line() {
        seen.push(cols.get(0));
    }
    assert_eq!(seen, vec![b("a"), b("b"), b("c")]);
    assert!(!cols.next_line());
    assert_eq!(cols.get(0), b(""));
}

#[test]
fn test_field_beyond_last_is_empty() {
    let mut cols = Columns::new(vec![b("x y\n")]);
    assert_eq!(cols.get(1), b(""));
    assert!(cols.next_line());
    assert_eq!(cols.get(2), b("y"));
    assert_eq!(cols.get(3), b(""));
    assert_eq!(cols.get(2000), b(""));
}

#[test]
fn test_separators() {
    let mut cols = Columns::new(vec![b("a,b;c,d;")]);
    cols.set_record_sep(";".to_string());
    cols.set_field_sep(",".to_string());
    assert!(cols.next_line());
    assert_eq!(cols.get(0), b("a,b"));
    assert_eq!(cols.get(2), b("b"));
    assert!(cols.next_line());
    assert_eq!(cols.get(1), b("c"));
    assert!(!cols.next_line());
}

#[test]
fn test_multibyte_separator() {
    let mut cols = Columns::new(vec![b("a::b:::c")]);
    cols.set_field_sep("::".to_string());
    assert!(cols.next_line());
    assert_eq!(cols.get(1), b("a"));
    assert_eq!(cols.get(2), b("b"));
    assert_eq!(cols.get(3), b(":c"));
}

#[test]
fn test_set_field() {
    let mut cols = Columns::new(vec![b("1 2 3\n4 5 6")]);
    assert!(cols.next_line());
    cols.set(2, b("x"));
    assert_eq!(cols.get(2), b("x"));
    assert_eq!(cols.get(1), b("1"));
    assert!(cols.next_line());
    assert_eq!(cols.get(2), b("5"));
}

#[test]
fn test_split_bytes() {
    assert_eq!(split_bytes(&b("1 2 3"), &b(" ")), vec![b("1"), b("2"), b("3")]);
    assert_eq!(split_bytes(&b("a  b"), &b(" ")), vec![b("a"), b(""), b("b")]);
    assert_eq!(split_bytes(&b(""), &b(" ")), vec![b("")]);
    assert_eq!(split_bytes(&b("abc"), &b("")), vec![b("abc")]);
}

#[test]
fn test_truthiness() {
    assert!(!truthy(&Value::Float(FLOAT_ZERO)));
    assert!(!truthy(&Value::Float((-0.0f64).to_bits())));
    assert!(truthy(&Value::Float(FLOAT_ONE)));
    assert!(truthy(&Value::Float(0.5f64.to_bits())));
    assert!(truthy(&Value::Float(f64::NAN.to_bits())));
    assert!(!truthy(&Value::Str(Vec::new())));
    assert!(truthy(&Value::Str(b("0"))));
    assert!(truthy(&Value::Str(b("abc"))));
}

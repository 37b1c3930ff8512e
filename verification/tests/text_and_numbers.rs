use mwi_sim_core::float_bits::{self, Number};
use mwi_sim_core::json::{is_empty_json_collection, zero_like, JsonShape, JsonValue};
use mwi_sim_core::text::{compare_text, decimal_text, is_blank, text_eq};

fn num(v: f64) -> Number {
    Number { bits: v.to_bits(), text: v.to_string() }
}

#[test]
fn decimal_text_writes_integers_like_display() {
    for n in [0u64, 7, 10, 99, 1_000_000, u64::MAX] {
        assert_eq!(decimal_text(n), n.to_string());
    }
}

#[test]
fn blank_means_only_whitespace() {
    assert!(is_blank(""));
    assert!(is_blank(" \t\n\r"));
    assert!(!is_blank(" x "));
    assert!(text_eq("fly", "fly"));
    assert!(!text_eq("fly", "fly "));
}

#[test]
fn text_order_is_byte_order() {
    assert!(compare_text("a", "b") < 0);
    assert!(compare_text("b", "a") > 0);
    assert_eq!(compare_text("ab", "ab"), 0);
    assert!(compare_text("a", "ab") < 0);
    assert!(compare_text("Z", "a") < 0);
}

#[test]
fn float_predicates_match_std() {
    let samples = [0.0, -0.0, 1.0, -1.0, 0.5, 1e-300, f64::MIN_POSITIVE, f64::MAX, f64::INFINITY,
        f64::NEG_INFINITY, f64::NAN, 0.999_999_999, -10.0, -9.999];
    for &a in &samples {
        let b = a.to_bits();
        assert_eq!(float_bits::is_finite(b), a.is_finite(), "{a}");
        assert_eq!(float_bits::is_zero(b), a == 0.0, "{a}");
        assert_eq!(float_bits::le_zero(b), a <= 0.0, "{a}");
        assert_eq!(float_bits::finite_non_negative(b), a.is_finite() && a >= 0.0, "{a}");
        assert_eq!(float_bits::finite_positive(b), a.is_finite() && a > 0.0, "{a}");
        assert_eq!(float_bits::in_unit_interval(b), a.is_finite() && (0.0..1.0).contains(&a), "{a}");
        assert_eq!(
            float_bits::in_closed_unit_interval(b),
            a.is_finite() && (0.0..=1.0).contains(&a),
            "{a}"
        );
        for &c in &samples {
            assert_eq!(float_bits::gt(b, c.to_bits()), a > c, "{a} > {c}");
        }
    }
}

#[test]
fn json_shapes_report_lengths_and_zero_likeness() {
    let object = JsonValue::Object(vec![("a".into(), JsonValue::Array(vec![JsonValue::Null]))]);
    assert_eq!(object.shape(), JsonShape::Object(1));
    assert!(!is_empty_json_collection(&object.shape()));
    assert!(is_empty_json_collection(&JsonValue::empty_object().shape()));
    assert!(is_empty_json_collection(&JsonValue::Null.shape()));
    assert!(!is_empty_json_collection(&JsonValue::String(String::new()).shape()));
    assert!(zero_like(&JsonShape::Number(num(-0.0))));
    assert!(zero_like(&JsonShape::String(String::new())));
    assert!(zero_like(&JsonShape::Bool(false)));
    assert!(!zero_like(&JsonShape::Number(num(1e-9))));
    assert!(!zero_like(&JsonShape::Array(2)));
    let copy = object.clone();
    assert_eq!(copy.shape(), JsonShape::Object(1));
}

#[test]
fn a_cloned_document_is_the_same_document() {
    let doc = JsonValue::Object(vec![
        ("name".into(), JsonValue::String("fly".into())),
        ("levels".into(), JsonValue::Array(vec![JsonValue::Number(num(1.5)), JsonValue::Null])),
        ("nested".into(), JsonValue::Object(vec![("ok".into(), JsonValue::Bool(true))])),
    ]);
    let copy = doc.clone();
    assert_eq!(format!("{doc:?}"), format!("{copy:?}"));
}

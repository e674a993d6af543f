use sljs::heap::{primitive_string, GLOBAL};
use sljs::number::Num;
use sljs::object::{Access, JSObject, Payload};
use sljs::text::{decimal_string, num_to_string, parse_index, string_less, string_to_num};
use sljs::{Heap, JSValue};

fn s(text: &str) -> JSValue {
    JSValue::String(text.to_string())
}

#[test]
fn strict_equality_cases() {
    assert!(JSValue::strict_eq(&JSValue::Number(Num::Int(3)), &JSValue::Number(Num::Int(3))));
    assert!(!JSValue::strict_eq(&JSValue::Number(Num::NaN), &JSValue::Number(Num::NaN)));
    assert!(JSValue::strict_eq(&JSValue::Number(Num::Int(0)), &JSValue::Number(Num::Int(0))));
    assert!(JSValue::strict_eq(&s("ab"), &s("ab")));
    assert!(!JSValue::strict_eq(&s("1"), &JSValue::Number(Num::Int(1))));
    assert!(JSValue::strict_eq(&JSValue::Undefined, &JSValue::Undefined));
    assert!(!JSValue::strict_eq(&JSValue::Undefined, &JSValue::Null));
    assert!(JSValue::strict_eq(&JSValue::Ref(9), &JSValue::Ref(9)));
    assert!(!JSValue::strict_eq(&JSValue::Ref(9), &JSValue::Ref(8)));
}

#[test]
fn loose_equality_cases() {
    let heap = Heap::new();
    assert!(heap.loose_eq(&JSValue::Undefined, &JSValue::Null));
    assert!(!heap.loose_eq(&JSValue::Null, &JSValue::Number(Num::Int(0))));
    assert!(heap.loose_eq(&s("1"), &JSValue::Number(Num::Int(1))));
    assert!(heap.loose_eq(&JSValue::Bool(true), &s("1")));
    assert!(!heap.loose_eq(&s("abc"), &JSValue::Bool(false)));
    assert!(heap.loose_eq(&s(""), &JSValue::Number(Num::Int(0))));
    assert!(!heap.loose_eq(&JSValue::Number(Num::NaN), &JSValue::Number(Num::NaN)));
}

#[test]
fn truthiness() {
    assert!(!JSValue::Undefined.boolify());
    assert!(!JSValue::Null.boolify());
    assert!(!JSValue::Number(Num::Int(0)).boolify());
    assert!(!JSValue::Number(Num::NaN).boolify());
    assert!(JSValue::Number(Num::Int(-2)).boolify());
    assert!(!s("").boolify());
    assert!(s("0").boolify());
    assert!(JSValue::Ref(3).boolify());
}

#[test]
fn number_arithmetic() {
    assert_eq!(Num::Int(7).add(&Num::Int(5)), Num::Int(12));
    assert_eq!(Num::Int(7).sub(&Num::Int(9)), Num::Int(-2));
    assert_eq!(Num::Int(6).mul(&Num::Int(-7)), Num::Int(-42));
    assert_eq!(Num::Int(12).div(&Num::Int(4)), Num::Int(3));
    assert_eq!(Num::Int(-12).div(&Num::Int(4)), Num::Int(-3));
    assert_eq!(Num::Int(7).div(&Num::Int(2)), Num::NaN);
    assert_eq!(Num::Int(7).div(&Num::Int(0)), Num::NaN);
    assert_eq!(Num::Int(-7).rem(&Num::Int(3)), Num::Int(-1));
    assert_eq!(Num::Int(7).rem(&Num::Int(-3)), Num::Int(1));
    assert_eq!(Num::Int(7).rem(&Num::Int(0)), Num::NaN);
    assert_eq!(Num::Int(i64::MAX).add(&Num::Int(1)), Num::NaN);
    assert_eq!(Num::Int(i64::MIN).neg(), Num::NaN);
    assert_eq!(Num::NaN.add(&Num::Int(1)), Num::NaN);
    assert!(Num::Int(1).less(&Num::Int(2)));
    assert!(!Num::NaN.less(&Num::Int(2)));
    assert_eq!(Num::Int(0x1_0000_0005).to_i32(), 5);
}

#[test]
fn number_text() {
    assert_eq!(decimal_string(0), "0");
    assert_eq!(decimal_string(1234567890), "1234567890");
    assert_eq!(num_to_string(&Num::Int(-45)), "-45");
    assert_eq!(num_to_string(&Num::NaN), "NaN");
    assert_eq!(num_to_string(&Num::Int(i64::MIN)), "-9223372036854775808");
}

#[test]
fn text_to_number() {
    assert_eq!(string_to_num(""), Num::Int(0));
    assert_eq!(string_to_num("42"), Num::Int(42));
    assert_eq!(string_to_num("007"), Num::Int(7));
    assert_eq!(string_to_num("-13"), Num::Int(-13));
    assert_eq!(string_to_num("-"), Num::NaN);
    assert_eq!(string_to_num("4x"), Num::NaN);
    assert_eq!(string_to_num("-9223372036854775808"), Num::Int(i64::MIN));
    assert_eq!(string_to_num("9223372036854775808"), Num::NaN);
}

#[test]
fn index_names() {
    assert_eq!(parse_index("0"), Some(0));
    assert_eq!(parse_index("17"), Some(17));
    assert_eq!(parse_index("017"), None);
    assert_eq!(parse_index("-1"), None);
    assert_eq!(parse_index("length"), None);
    assert_eq!(parse_index(""), None);
}

#[test]
fn string_order() {
    assert!(string_less("a", "b"));
    assert!(string_less("ab", "abc"));
    assert!(!string_less("abc", "ab"));
    assert!(!string_less("b", "b"));
    assert!(string_less("", "a"));
    assert!(string_less("B", "a"));
}

#[test]
fn primitive_texts() {
    assert_eq!(primitive_string(&JSValue::Undefined), "undefined");
    assert_eq!(primitive_string(&JSValue::Null), "null");
    assert_eq!(primitive_string(&JSValue::Bool(false)), "false");
    assert_eq!(primitive_string(&JSValue::Number(Num::Int(5))), "5");
    assert_eq!(primitive_string(&s("hi")), "hi");
}

#[test]
fn plus_concatenates_or_adds() {
    let heap = Heap::new();
    let sum = heap.plus(&JSValue::Number(Num::Int(2)), &JSValue::Number(Num::Int(3)));
    assert!(matches!(sum, JSValue::Number(Num::Int(5))));
    let text = heap.plus(&s("a"), &JSValue::Number(Num::Int(1)));
    assert!(matches!(text, JSValue::String(ref t) if t == "a1"));
    let mixed = heap.plus(&JSValue::Bool(true), &JSValue::Null);
    assert!(matches!(mixed, JSValue::Number(Num::Int(1))));
}

#[test]
fn readonly_property_is_kept() {
    let mut o = JSObject::new(0);
    o.define_own_property("k".to_string(), JSValue::Number(Num::Int(1)), Access::readonly());
    o.set_property("k".to_string(), JSValue::Number(Num::Int(2)));
    assert!(matches!(o.get_own_value(&"k".to_string()), Some(JSValue::Number(Num::Int(1)))));
    o.set_property("w".to_string(), JSValue::Number(Num::Int(3)));
    o.set_property("w".to_string(), JSValue::Number(Num::Int(4)));
    assert!(matches!(o.get_own_value(&"w".to_string()), Some(JSValue::Number(Num::Int(4)))));
    assert_eq!(o.properties.len(), 2);
}

#[test]
fn nonconfigurable_property_survives_delete() {
    let mut o = JSObject::new(0);
    o.set_nonconf("fixed".to_string(), JSValue::Bool(true));
    o.set_property("loose".to_string(), JSValue::Bool(true));
    assert!(!o.delete(&"fixed".to_string()));
    assert!(o.delete(&"loose".to_string()));
    assert!(o.delete(&"absent".to_string()));
    assert!(o.has_own(&"fixed".to_string()));
    assert!(!o.has_own(&"loose".to_string()));
}

#[test]
fn enumeration_order_and_hidden_names() {
    let mut o = JSObject::with_payload(Payload::Array(vec![JSValue::Null, JSValue::Null]), 0);
    o.set_property("b".to_string(), JSValue::Null);
    o.set_hidden("secret".to_string(), JSValue::Null);
    o.set_property("a".to_string(), JSValue::Null);
    assert_eq!(o.enumerable_keys(), vec!["0", "1", "b", "a"]);
}

#[test]
fn array_length_follows_storage() {
    let mut o = JSObject::with_payload(Payload::Array(vec![]), 0);
    let length = "length".to_string();
    assert!(matches!(o.get_own_value(&length), Some(JSValue::Number(Num::Int(0)))));
    o.set_property("3".to_string(), JSValue::Bool(true));
    assert!(matches!(o.get_own_value(&length), Some(JSValue::Number(Num::Int(4)))));
    assert!(matches!(o.get_own_value(&"1".to_string()), Some(JSValue::Undefined)));
    o.set_property("length".to_string(), JSValue::Number(Num::Int(0)));
    assert!(matches!(o.get_own_value(&length), Some(JSValue::Number(Num::Int(4)))));
    o.push_value(JSValue::Null);
    assert!(matches!(o.get_own_value(&length), Some(JSValue::Number(Num::Int(5)))));
    assert!(!o.delete(&"0".to_string()));
}

#[test]
fn fresh_heap_layout() {
    let heap = Heap::new();
    assert_eq!(heap.scope, GLOBAL);
    assert_eq!(heap.objects[GLOBAL].proto, 0);
    assert!(heap.lookup_var(&"Error".to_string()).is_some());
    assert!(heap.lookup_var(&"nothing".to_string()).is_none());
}

use ohnotel::model::{compare_attrs, KeyValue, NameIdentity, Str, Value};
use ohnotel::number::{Number, OrderedNumber};
use std::borrow::Cow;
use std::cmp::Ordering;
use std::sync::Arc;

fn number(value: f64) -> Number {
    Number::from_parts(value.to_bits(), value.to_string())
}

#[test]
fn api() {
    let _ = KeyValue::no_val("foo");
    let _ = KeyValue::new("foo", "bar");

    let s = "foobar".to_owned();
    let _ = KeyValue::new("a", &s);

    let _ = KeyValue::new("a", 12i32);
}

#[test]
fn texts_are_equal_by_content() {
    let shared: Arc<str> = Arc::from("abc");
    let forms = [
        Str::from("abc"),
        Str::from("abc".to_owned()),
        Str::from(&"abc".to_owned()),
        Str::from(Arc::clone(&shared)),
        Str::from(&shared),
        Str::from(Cow::Borrowed("abc")),
        Str::from(&Str::from("abc")),
    ];
    for a in &forms {
        for b in &forms {
            assert!(a == b);
            assert_eq!(a.partial_cmp(b), Some(Ordering::Equal));
        }
        assert!(*a != Str::from("abd"));
        assert!(*a < Str::from("abcd"));
        assert!(*a > Str::from("Z"));
        assert_eq!(a.clone().as_str(), "abc");
        assert_eq!(a.to_text(), "abc");
    }
}

#[test]
fn values_are_ordered_by_variant_and_content() {
    let values = [
        Value::from("a"),
        Value::from("b"),
        Value::from(false),
        Value::from(true),
        Value::from(-1_i64),
        Value::from(7_u32),
        Value::from(number(f64::NEG_INFINITY)),
        Value::from(number(-1.5)),
        Value::from(number(0.0)),
        Value::from(number(2.5)),
        Value::from(number(f64::NAN)),
        Value::from(Vec::<Value>::new()),
        Value::from(vec![Value::from(1)]),
        Value::from(vec![Value::from(1), Value::from(0)]),
        Value::from(vec![KeyValue::no_val("k")]),
        Value::from(vec![KeyValue::new("k", 1)]),
        Value::from(vec![1_u8, 2]),
        Value::from(vec![2_u8]),
    ];
    for (i, a) in values.iter().enumerate() {
        for (j, b) in values.iter().enumerate() {
            assert_eq!(a.partial_cmp(b), Some(i.cmp(&j)), "{a:?} {b:?}");
            assert_eq!(a == b, i == j);
        }
    }
    assert!(Value::from(number(0.0)) == Value::from(number(-0.0)));
    assert!(Value::from(number(f64::NAN)) == Value::from(number(-f64::NAN)));
}

#[test]
fn attributes_are_ordered_by_key_and_value() {
    let attrs = [
        KeyValue::no_val("a"),
        KeyValue::new("a", "x"),
        KeyValue::new("a", "y"),
        KeyValue::no_val("b"),
    ];
    for (i, a) in attrs.iter().enumerate() {
        for (j, b) in attrs.iter().enumerate() {
            assert_eq!(a.partial_cmp(b), Some(i.cmp(&j)));
        }
    }
    let list = |n: usize| attrs[..n].to_vec();
    assert_eq!(compare_attrs(&list(2), &list(3)), -1);
    assert_eq!(compare_attrs(&list(3), &list(3)), 0);
    assert_eq!(compare_attrs(&vec![attrs[3].clone()], &list(3)), 1);
}

#[test]
fn attributes_have_texts() {
    assert_eq!(KeyValue::no_val("k").to_text(), "k");
    assert_eq!(KeyValue::new("k", "a\"\n").to_text(), "k=\"a\\\"\\n\"");
    assert_eq!(KeyValue::new("k", i64::MIN).to_text(), "k=-9223372036854775808");
    assert_eq!(KeyValue::new("k", number(1.5)).to_text(), "k=1.5");
    assert_eq!(
        Value::from(vec![Value::from(1), Value::from("x")]).to_text(),
        "[1,\"x\"]"
    );
    assert_eq!(
        Value::from(vec![KeyValue::new("a", true), KeyValue::no_val("b")]).to_text(),
        "{a=true,b}"
    );
    assert_eq!(Value::from(vec![1_u8, 20]).to_text(), "[1, 20]");
}

#[test]
fn integers_that_do_not_fit_are_refused() {
    assert!(Value::try_from(i64::MAX as u64).unwrap() == Value::from(i64::MAX));
    let err = Value::try_from(i64::MAX as u64 + 1).expect_err("too large");
    assert_eq!(err, i64::try_from(u64::MAX).unwrap_err());
    assert!(Value::try_from(3_usize).unwrap() == Value::from(3));
    let err: std::num::TryFromIntError = Value::try_from(usize::MAX).expect_err("too large");
    assert_eq!(err, i64::try_from(usize::MAX).unwrap_err());
    assert!(Value::from(u8::MAX) == Value::from(255));
    assert!(Value::from(i16::MIN) == Value::from(-32768));
}

#[test]
fn pairs_are_attributes() {
    assert!(KeyValue::from(("k", 1)) == KeyValue::new("k", 1));
}

#[test]
fn identities_are_equal_by_content() {
    let id = |unit: &str| NameIdentity {
        name: Str::from("n"),
        description: Str::from("d"),
        unit: Str::from(unit.to_owned()),
    };
    assert!(id("s") == id("s"));
    assert!(id("s") != id("ms"));
    assert!(id("s").clone() == id("s"));
}

#[test]
fn lists_and_borrowed_forms_are_copied() {
    let one = Value::from(1);
    let list = Value::from(vec![one.clone()]);
    assert!(Value::from([one.clone()]) == list);
    assert!(Value::from(&[one.clone()]) == list);
    assert!(Value::from(&[one.clone()][..]) == list);
    let attr = KeyValue::new("k", "v");
    let attrs = Value::from(vec![attr.clone()]);
    assert!(Value::from([attr.clone()]) == attrs);
    assert!(Value::from(&[attr.clone()]) == attrs);
    assert!(Value::from(&[attr.clone()][..]) == attrs);
    let bytes = Value::from(vec![1_u8, 2]);
    assert!(Value::from([1_u8, 2]) == bytes);
    assert!(Value::from(&[1_u8, 2]) == bytes);
    assert!(Value::from(&[1_u8, 2][..]) == bytes);
    assert!(Value::from(vec![1_u8, 2].into_boxed_slice()) == bytes);
    let text: Box<str> = Box::from("t");
    assert!(Value::from(text.clone()) == Value::from("t"));
    assert!(Str::from(text) == Str::from("t"));
    let cow = Cow::Borrowed("t");
    assert!(Value::from(&cow) == Value::from("t"));
    assert!(Str::from(&cow) == Str::from("t"));
    assert!(KeyValue::from(&attr) == attr);
    assert!(KeyValue::from(&&attr) == attr);
    assert_eq!(String::from(Str::from("t")), "t");
}

#[test]
fn doubles_that_are_not_numbers_equal_nothing_unless_ordered() {
    assert!(number(1.5) == number(1.5));
    assert!(number(0.0) == number(-0.0));
    assert!(number(f64::NAN) != number(f64::NAN));
    assert!(OrderedNumber(number(f64::NAN)) == OrderedNumber(number(-f64::NAN)));
    assert!(Value::from(OrderedNumber(number(1.5))) == Value::from(number(1.5)));
}

#[test]
fn only_the_characters_of_texts_matter() {
    let held = |text: &'static str| {
        [
            Str::from(text),
            Str::from(String::from(text)),
            Str::from(Arc::<str>::from(text)),
        ]
    };
    for a in held("alpha") {
        for b in held("alpha") {
            assert!(a == b);
            assert_eq!(a.cmp(&b), Ordering::Equal);
            assert_eq!(a.hash_from(7), b.hash_from(7));
        }
        for b in held("alpine") {
            assert!(a != b);
            assert_eq!(a.cmp(&b), "alpha".cmp("alpine"));
            assert_eq!(b.cmp(&a), "alpine".cmp("alpha"));
            assert_eq!(a.partial_cmp(&b), Some(Ordering::Less));
        }
    }
    assert_eq!(Str::from("").hash_from(7), 7);
    assert_eq!(Str::from("ab").hash_from(1), (31 + 97) * 31 + 98);
    assert_eq!(Str::from("\u{e9}").cmp(&Str::from("z")), Ordering::Greater);
    assert_eq!(KeyValue::new("k", 1).cmp(&KeyValue::new("k", 2)), Ordering::Less);
    assert_eq!(Value::from(2).cmp(&Value::from(1)), Ordering::Greater);
}

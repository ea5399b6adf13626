use indexmap::IndexMap;
use serde_zipson::value as lib;

#[derive(Debug, PartialEq, Clone)]
enum Number {
    Int(i64),
    Float(f64),
}

#[allow(dead_code)]
#[derive(Debug, PartialEq, Clone)]
enum Value {
    Undefined,
    Null,
    Bool(bool),
    Number(Number),
    String(String),
    Array(Vec<Value>),
    Object(IndexMap<String, Value>),
}

use Number::{Float, Int};

fn float_parts(v: f64) -> lib::Float {
    let text = v.to_string();
    let mut split = text.split('.');
    let whole = split.next().unwrap();
    let digits = split.next().unwrap_or("").to_string();
    let integer = if whole == "-0" { 0 } else { whole.parse::<i64>().unwrap() };
    let thousandths = ((v % 1.) * 1000_f64).round() as i64;
    lib::Float { negative: whole.starts_with('-'), integer, digits, thousandths }
}

fn to_lib(value: &Value) -> lib::Value {
    match value {
        Value::Undefined => lib::Value::Undefined,
        Value::Null => lib::Value::Null,
        Value::Bool(v) => lib::Value::Bool(*v),
        Value::Number(Int(v)) => lib::Value::Number(lib::Number::Int(*v)),
        Value::Number(Float(v)) => lib::Value::Number(lib::Number::Float(float_parts(*v))),
        Value::String(v) => lib::Value::String(v.clone()),
        Value::Array(v) => lib::Value::Array(v.iter().map(to_lib).collect()),
        Value::Object(v) => {
            lib::Value::Object(v.iter().map(|(k, v)| (k.clone(), to_lib(v))).collect())
        }
    }
}

fn test_stringify(value: Value, expected: &str) {
    let res = serde_zipson::ser::to_string(&to_lib(&value), false, false);
    assert_eq!(res.unwrap(), expected);
}

fn test_stringify_full_precision(value: Value, expected: &str) {
    let res = serde_zipson::ser::to_string(&to_lib(&value), true, false);
    assert_eq!(res.unwrap(), expected);
}

fn test_stringify_detect_dates(value: Value, expected: &str) {
    let res = serde_zipson::ser::to_string(&to_lib(&value), false, true);
    assert_eq!(res.unwrap(), expected);
}

#[test]
fn scalar_test_null() {
    test_stringify(Value::Null, "§");
}

#[test]
fn scalar_test_bool() {
    test_stringify(Value::Bool(true), "»");
    test_stringify(Value::Bool(false), "«");
}

#[test]
fn scalar_test_small_integer() {
    test_stringify(Value::Number(Int(-9)), "À");
    test_stringify(Value::Number(Int(-8)), "Á");
    test_stringify(Value::Number(Int(-7)), "Â");
    test_stringify(Value::Number(Int(-6)), "Ã");
    test_stringify(Value::Number(Int(-5)), "Ä");
    test_stringify(Value::Number(Int(-4)), "Å");
    test_stringify(Value::Number(Int(-3)), "Æ");
    test_stringify(Value::Number(Int(-2)), "Ç");
    test_stringify(Value::Number(Int(-1)), "È");
    test_stringify(Value::Number(Int(-0)), "É");
    test_stringify(Value::Number(Int(0)), "É");
    test_stringify(Value::Number(Int(1)), "Ê");
    test_stringify(Value::Number(Int(2)), "Ë");
    test_stringify(Value::Number(Int(3)), "Ì");
    test_stringify(Value::Number(Int(4)), "Í");
    test_stringify(Value::Number(Int(5)), "Î");
    test_stringify(Value::Number(Int(6)), "Ï");
    test_stringify(Value::Number(Int(7)), "Ð");
    test_stringify(Value::Number(Int(8)), "Ñ");
    test_stringify(Value::Number(Int(9)), "Ò");
}

#[test]
fn scalar_test_big_integer() {
    test_stringify(Value::Number(Int(10)), "¤A");
    test_stringify(Value::Number(Int(61)), "¤z");
    test_stringify(Value::Number(Int(62)), "¢10");
    test_stringify(Value::Number(Int(12301230)), "¢pc6w");
    test_stringify(Value::Number(Int(123012342310)), "¢2AGxFdG");

    test_stringify(Value::Number(Int(-10)), "¢-A");
    test_stringify(Value::Number(Int(-12301230)), "¢-pc6w");
    test_stringify(Value::Number(Int(-123014323230)), "¢-2AH5Yxa");
}

#[test]
fn scalar_test_unreferenced_integer() {
    test_stringify(Value::Array(vec![
        Value::Number(Int(61)),
        Value::Number(Int(62)),
        Value::Number(Int(61)),
    ]), "|¤z¢10¤z÷");
}

#[test]
fn scalar_test_ref_integer() {
    test_stringify(Value::Array(vec![
        Value::Number(Int(111)),
        Value::Number(Int(222)),
        Value::Number(Int(111)),
        Value::Number(Int(222)),
        Value::Number(Int(111)),
        Value::Number(Int(222)),
    ]), "|¢1n¢3aº0º1º0º1÷");
}

#[test]
fn scalar_test_float_small() {
    test_stringify(Value::Number(Float(-0.)), "£0.0");
    test_stringify(Value::Number(Float(0.)), "£0.0");
    test_stringify(Value::Number(Float(-0.0001)), "£0.0");
    test_stringify(Value::Number(Float(0.0001)), "£0.0");
    test_stringify(Value::Number(Float(0.001)), "£0.1");
    test_stringify(Value::Number(Float(0.01)), "£0.A");
    test_stringify(Value::Number(Float(0.1)), "£0.1c");
    test_stringify(Value::Number(Float(0.111)), "£0.1n");
    test_stringify(Value::Number(Float(-0.111)), "£0.-1n");
    test_stringify(Value::Number(Float(5.999)), "£5.G7");
    test_stringify(Value::Number(Float(-15.555)), "£-F.-8x");
}

#[test]
fn scalar_test_float_full_precision() {
    test_stringify_full_precision(Value::Number(Float(0.)), "£0,0");
    test_stringify_full_precision(Value::Number(Float(-0.)), "£0,0");
    test_stringify_full_precision(Value::Number(Float(5.9234827938)), "£5,9234827938");
    test_stringify_full_precision(Value::Number(Float(-15.552345411)), "£-F,552345411");
    test_stringify_full_precision(Value::Number(Float(0.552345411)), "£0,552345411");
    test_stringify_full_precision(Value::Number(Float(-0.552345411)), "£-0,552345411");
}

#[test]
fn scalar_test_unreferenced_float() {
    let mut values = vec![];
    for i in 0..62 * 62 {
        values.push(Value::Number(Float(0.111 + 0.01 * i as f64)));
    }

    values.push(Value::Number(Float(0.001)));
    values.push(Value::Number(Float(111.111)));
    values.push(Value::Number(Float(0.001)));

    let res = serde_zipson::ser::to_string(&to_lib(&Value::Array(values)), false, false);

    let re = regex::Regex::new(r"¥0\.1£1n\.1n¥0\.1÷$").unwrap();
    assert!(re.is_match(&res.unwrap()));
}

#[test]
fn scalar_test_ref_float() {
    test_stringify(Value::Array(vec![
        Value::Number(Float(111.1)),
        Value::Number(Float(222.2)),
        Value::Number(Float(111.1)),
        Value::Number(Float(222.2)),
        Value::Number(Float(111.1)),
        Value::Number(Float(222.2)),
    ]), "|£1n.1c£3a.3EÝ0Ý1Ý0Ý1÷");
}

#[test]
fn scalar_test_empty_string() {
    test_stringify(Value::String("".into()), "´´");
}

#[test]
fn scalar_test_short_string() {
    test_stringify(Value::String("x".into()), "´x´");
}

#[test]
fn scalar_test_short_string_single_quote() {
    test_stringify(Value::String("'".into()), "´'´");
}

#[test]
fn scalar_test_short_string_double_quote() {
    test_stringify(Value::String("\"".into()), "´\"´");
}

#[test]
fn scalar_test_short_string_string_token() {
    test_stringify(Value::String("¨".into()), "¨\\¨¨");
}

#[test]
fn scalar_test_short_string_unreferenced_string_token() {
    test_stringify(Value::String("´".into()), "´\\´´");
}

#[test]
fn scalar_test_short_string_escape_token() {
    test_stringify(Value::String("\\".into()), "¨\\\\¨");
}

#[test]
fn scalar_test_long_string() {
    test_stringify(Value::String("aoasdfjalisruhgalsiuhfdlsajdlifuashrlifuhsaildjfsalkhglasurflasjdfklsandfasurliausnlc".into()), "¨aoasdfjalisruhgalsiuhfdlsajdlifuashrlifuhsaildjfsalkhglasurflasjdfklsandfasurliausnlc¨");
}

#[test]
fn scalar_test_long_string_single_quote() {
    test_stringify(Value::String("'aoasdfjalisruhgals'iuhfdlsajdlifuashrlifuhsaildjfsalkhglasurflasjdfklsandfasurliausnlc'".into()), "¨'aoasdfjalisruhgals'iuhfdlsajdlifuashrlifuhsaildjfsalkhglasurflasjdfklsandfasurliausnlc'¨");
}

#[test]
fn scalar_test_long_string_double_quote() {
    test_stringify(Value::String("\"aoasdfjalisruhgals\"iuhfdlsajdlifuashrlifuhsaildjfsalkhglasurflasjdfklsandfasurliausnlc\"".into()), "¨\"aoasdfjalisruhgals\"iuhfdlsajdlifuashrlifuhsaildjfsalkhglasurflasjdfklsandfasurliausnlc\"¨");
}

#[test]
fn scalar_test_long_string_string_token() {
    test_stringify(Value::String("¨aoasdfjalisruhgals¨iuhfdlsajdlifuashrlifuhsaildjfsalkhglasurflasjdfklsandfasurliausnlc¨".into()), "¨\\¨aoasdfjalisruhgals\\¨iuhfdlsajdlifuashrlifuhsaildjfsalkhglasurflasjdfklsandfasurliausnlc\\¨¨");
}

#[test]
fn scalar_test_long_string_unreferenced_string_token() {
    test_stringify(Value::String("´aoasdfjalisruhgals´iuhfdlsajdlifuashrlifuhsaildjfsalkhglasurflasjdfklsandfasurliausnlc´".into()), "¨´aoasdfjalisruhgals´iuhfdlsajdlifuashrlifuhsaildjfsalkhglasurflasjdfklsandfasurliausnlc´¨");
}

#[test]
fn scalar_test_long_string_escape_token() {
    test_stringify(Value::String("\\aoasdfjalisruhgals\\\\iuhfdlsajdlifuashrlifuhsaildjfsalkhglasurflasjdfklsandfasurliausnlc".into()), "¨\\\\aoasdfjalisruhgals\\\\\\\\iuhfdlsajdlifuashrlifuhsaildjfsalkhglasurflasjdfklsandfasurliausnlc¨");
}

#[test]
fn scalar_test_string_date() {
    test_stringify_detect_dates(Value::String("2022-02-24T04:31:00.123Z".into()), "øSyKTET5");
}

#[test]
fn scalar_test_unreferenced_string() {
    test_stringify_detect_dates(Value::Array(vec![
        Value::String("x".into()),
        Value::String("aaa".into()),
        Value::String("x".into()),
    ]), "|´x´¨aaa¨´x´÷");
}

#[test]
fn scalar_test_ref_string() {
    test_stringify_detect_dates(Value::Array(vec![
        Value::String("aaa".into()),
        Value::String("bbb".into()),
        Value::String("aaa".into()),
        Value::String("bbb".into()),
        Value::String("aaa".into()),
        Value::String("bbb".into()),
    ]), "|¨aaa¨¨bbb¨ß0ß1ß0ß1÷");
}

#[test]
fn scalar_test_unreferenced_date() {
    test_stringify_detect_dates(Value::Array(vec![
        Value::String("1970-01-01T00:00:00.001Z".into()),
    ]), "|¿1÷");
}

#[test]
fn scalar_test_ref_date() {
    test_stringify_detect_dates(Value::Array(vec![
        Value::String("2022-02-24T04:31:00.111Z".into()),
        Value::String("2022-02-24T04:31:00.222Z".into()),
        Value::String("2022-02-24T04:31:00.111Z".into()),
        Value::String("2022-02-24T04:31:00.222Z".into()),
        Value::String("2022-02-24T04:31:00.111Z".into()),
        Value::String("2022-02-24T04:31:00.222Z".into()),
    ]), "|øSyKTEStøSyKTEUg×0×1×0×1÷");
}

#[test]
fn array_test_empty() {
    test_stringify(Value::Array(vec![]), "|÷");
}

#[test]
fn array_test_one_null() {
    test_stringify(Value::Array(vec![Value::Null]), "|§÷");
}

#[test]
fn array_test_one_bool() {
    test_stringify(Value::Array(vec![Value::Bool(true)]), "|»÷");
    test_stringify(Value::Array(vec![Value::Bool(false)]), "|«÷");
}

#[test]
fn array_test_one_small_integer() {
    test_stringify(Value::Array(vec![Value::Number(Int(-9))]), "|À÷");
    test_stringify(Value::Array(vec![Value::Number(Int(-8))]), "|Á÷");
    test_stringify(Value::Array(vec![Value::Number(Int(-7))]), "|Â÷");
    test_stringify(Value::Array(vec![Value::Number(Int(-6))]), "|Ã÷");
    test_stringify(Value::Array(vec![Value::Number(Int(-5))]), "|Ä÷");
    test_stringify(Value::Array(vec![Value::Number(Int(-4))]), "|Å÷");
    test_stringify(Value::Array(vec![Value::Number(Int(-3))]), "|Æ÷");
    test_stringify(Value::Array(vec![Value::Number(Int(-2))]), "|Ç÷");
    test_stringify(Value::Array(vec![Value::Number(Int(-1))]), "|È÷");
    test_stringify(Value::Array(vec![Value::Number(Int(-0))]), "|É÷");
    test_stringify(Value::Array(vec![Value::Number(Int(1))]), "|Ê÷");
    test_stringify(Value::Array(vec![Value::Number(Int(2))]), "|Ë÷");
    test_stringify(Value::Array(vec![Value::Number(Int(3))]), "|Ì÷");
    test_stringify(Value::Array(vec![Value::Number(Int(4))]), "|Í÷");
    test_stringify(Value::Array(vec![Value::Number(Int(5))]), "|Î÷");
    test_stringify(Value::Array(vec![Value::Number(Int(6))]), "|Ï÷");
    test_stringify(Value::Array(vec![Value::Number(Int(7))]), "|Ð÷");
    test_stringify(Value::Array(vec![Value::Number(Int(8))]), "|Ñ÷");
    test_stringify(Value::Array(vec![Value::Number(Int(9))]), "|Ò÷");
}

#[test]
fn array_test_one_big_integer() {
    test_stringify(Value::Array(vec![Value::Number(Int(10))]), "|¤A÷");
    test_stringify(Value::Array(vec![Value::Number(Int(61))]), "|¤z÷");
    test_stringify(Value::Array(vec![Value::Number(Int(62))]), "|¢10÷");
    test_stringify(
        Value::Array(vec![Value::Number(Int(12301230))]),
        "|¢pc6w÷",
    );
    test_stringify(
        Value::Array(vec![Value::Number(Int(123012342310))]),
        "|¢2AGxFdG÷",
    );

    test_stringify(Value::Array(vec![Value::Number(Int(-10))]), "|¢-A÷");
    test_stringify(
        Value::Array(vec![Value::Number(Int(-12301230))]),
        "|¢-pc6w÷",
    );
    test_stringify(
        Value::Array(vec![Value::Number(Int(-123014323230))]),
        "|¢-2AH5Yxa÷",
    );
}

#[test]
fn array_test_one_float_small() {
    test_stringify(
        Value::Array(vec![Value::Number(Float(-0.))]),
        "|£0.0÷",
    );
    test_stringify(
        Value::Array(vec![Value::Number(Float(0.))]),
        "|£0.0÷",
    );
    test_stringify(
        Value::Array(vec![Value::Number(Float(-0.0001))]),
        "|£0.0÷",
    );
    test_stringify(
        Value::Array(vec![Value::Number(Float(0.0001))]),
        "|£0.0÷",
    );
    test_stringify(
        Value::Array(vec![Value::Number(Float(0.001))]),
        "|£0.1÷",
    );
    test_stringify(
        Value::Array(vec![Value::Number(Float(0.01))]),
        "|£0.A÷",
    );
    test_stringify(
        Value::Array(vec![Value::Number(Float(0.1))]),
        "|£0.1c÷",
    );
    test_stringify(
        Value::Array(vec![Value::Number(Float(0.111))]),
        "|£0.1n÷",
    );
    test_stringify(
        Value::Array(vec![Value::Number(Float(-0.111))]),
        "|£0.-1n÷",
    );
    test_stringify(
        Value::Array(vec![Value::Number(Float(5.999))]),
        "|£5.G7÷",
    );
    test_stringify(
        Value::Array(vec![Value::Number(Float(-15.555))]),
        "|£-F.-8x÷",
    );
}

#[test]
fn array_test_one_float_full_precision() {
    test_stringify_full_precision(
        Value::Array(vec![Value::Number(Float(0.))]),
        "|£0,0÷",
    );
    test_stringify_full_precision(
        Value::Array(vec![Value::Number(Float(-0.))]),
        "|£0,0÷",
    );
    test_stringify_full_precision(
        Value::Array(vec![Value::Number(Float(5.9234827938))]),
        "|£5,9234827938÷",
    );
    test_stringify_full_precision(
        Value::Array(vec![Value::Number(Float(-15.552345411))]),
        "|£-F,552345411÷",
    );
    test_stringify_full_precision(
        Value::Array(vec![Value::Number(Float(0.552345411))]),
        "|£0,552345411÷",
    );
    test_stringify_full_precision(
        Value::Array(vec![Value::Number(Float(-0.552345411))]),
        "|£-0,552345411÷",
    );
}

#[test]
fn array_test_one_empty_string() {
    test_stringify(Value::Array(vec![Value::String("".into())]), "|´´÷");
}

#[test]
fn array_test_one_short_string() {
    test_stringify(Value::Array(vec![Value::String("x".into())]), "|´x´÷");
}

#[test]
fn array_test_one_long_string() {
    test_stringify(
        Value::Array(vec![Value::String(
            "aoasdfjalisruhgalsiuhfdlsajdlifuashrlifuhsaildjfsalkhglasurflasjdfklsandfasurliausnlc"
                .into(),
        )]),
        "|¨aoasdfjalisruhgalsiuhfdlsajdlifuashrlifuhsaildjfsalkhglasurflasjdfklsandfasurliausnlc¨÷",
    );
}

#[test]
fn array_test_one_date() {
    test_stringify_detect_dates(
        Value::Array(vec![Value::String("2022-02-24T04:31:00.123Z".into())]),
        "|øSyKTET5÷",
    );
}

#[test]
fn array_test_repeat_scalar() {
    test_stringify(
        Value::Array(vec![Value::String("x".into()), Value::String("x".into())]),
        "|´x´þ÷",
    );
}

#[test]
fn array_test_repeat_array() {
    test_stringify(
        Value::Array(vec![
            Value::Array(vec![Value::String("x".into()), Value::String("x".into())]),
            Value::Array(vec![Value::String("x".into()), Value::String("x".into())]),
        ]),
        "||´x´þ÷þ÷",
    );
}

#[test]
fn array_test_repeat_object() {
    test_stringify(
        Value::Array(vec![
            Value::Object(IndexMap::from([("x".into(), Value::String("x".into()))])),
            Value::Object(IndexMap::from([("x".into(), Value::String("x".into()))])),
        ]),
        "|{´x´´x´}þ÷",
    );
}

#[test]
fn array_test_repeat_scalar_multiple() {
    test_stringify(
        Value::Array(vec![
            Value::String("x".into()),
            Value::String("x".into()),
            Value::String("x".into()),
            Value::String("y".into()),
            Value::String("z".into()),
            Value::String("z".into()),
        ]),
        "|´x´þþ´y´´z´þ÷",
    );
}

#[test]
fn array_test_repeat_many() {
    test_stringify(
        Value::Array(vec![
            Value::String("x".into()),
            Value::String("x".into()),
            Value::String("x".into()),
            Value::String("x".into()),
            Value::String("x".into()),
            Value::String("x".into()),
        ]),
        "|´x´þþþ^2÷",
    );
}

#[test]
fn array_test_repeat_many_with_trailing() {
    test_stringify(
        Value::Array(vec![
            Value::String("x".into()),
            Value::String("x".into()),
            Value::String("x".into()),
            Value::String("x".into()),
            Value::String("x".into()),
            Value::String("x".into()),
            Value::String("y".into()),
        ]),
        "|´x´þþþ^2´y´÷",
    );
}

#[test]
fn array_test_repeat_indexed() {
    test_stringify(
        Value::Array(vec![
            Value::String("xyz".into()),
            Value::String("xyz".into()),
            Value::String("xyz".into()),
            Value::String("xyz".into()),
            Value::String("xyz".into()),
            Value::String("xyz".into()),
        ]),
        "|¨xyz¨ß0þþþ^1÷",
    );
}

#[test]
fn array_mixed_test_one_of_each() {
    test_stringify(Value::Array(vec![
        Value::Null,
        Value::Bool(true),
        Value::Bool(false),
        Value::Number(Int(0)),
        Value::Number(Int(10)),
        Value::Number(Int(12301230)),
        Value::Number(Int(-123014323230)),
        Value::Number(Float(-0.111)),
        Value::Number(Float(-0.552345411)),
        Value::String("".to_string()),
        Value::String("x".to_string()),
        Value::String("aoasdfjalisruhgalsiuhfdlsajdlifuashrlifuhsaildjfsalkhglasurflasjdfklsandfasurliausnlc".to_string()),
        Value::String("2022-02-24T04:31:00.123Z".to_string()),
        Value::String("2022-02-24T04:30:00.000Z".to_string()),
    ]), "|§»«É¤A¢pc6w¢-2AH5Yxa£0.-1n£0.-8u´´´x´¨aoasdfjalisruhgalsiuhfdlsajdlifuashrlifuhsaildjfsalkhglasurflasjdfklsandfasurliausnlc¨¨2022-02-24T04:31:00.123Z¨¨2022-02-24T04:30:00.000Z¨÷");
}

#[test]
fn test_one_of_each_full_precision() {
    test_stringify_full_precision(Value::Array(vec![
        Value::Null,
        Value::Bool(true),
        Value::Bool(false),
        Value::Number(Int(0)),
        Value::Number(Int(10)),
        Value::Number(Int(12301230)),
        Value::Number(Int(-123014323230)),
        Value::Number(Float(-0.111)),
        Value::Number(Float(-0.552345411)),
        Value::String("".to_string()),
        Value::String("x".to_string()),
        Value::String("aoasdfjalisruhgalsiuhfdlsajdlifuashrlifuhsaildjfsalkhglasurflasjdfklsandfasurliausnlc".to_string()),
        Value::String("2022-02-24T04:31:00.123Z".to_string()),
        Value::String("2022-02-24T04:30:00.000Z".to_string()),
    ]), "|§»«É¤A¢pc6w¢-2AH5Yxa£-0,111£-0,552345411´´´x´¨aoasdfjalisruhgalsiuhfdlsajdlifuashrlifuhsaildjfsalkhglasurflasjdfklsandfasurliausnlc¨¨2022-02-24T04:31:00.123Z¨¨2022-02-24T04:30:00.000Z¨÷");
}

#[test]
fn object_test_empty_object() {
    test_stringify(Value::Object(IndexMap::new()), "{}");
}

#[test]
fn object_test_homogenous() {
    test_stringify(Value::Object(IndexMap::from([
("x".into(), Value::Number(Int(1))),
("y".into(), Value::Number(Int(2))),
("z".into(), Value::Number(Int(3))),
])), "{´x´Ê´y´Ë´z´Ì}", );
}

#[test]
fn object_test_mixed() {
    test_stringify(Value::Object(IndexMap::from([
("x".into(), Value::Number(Int(1))),
("y".into(), Value::Number(Int(212301230))),
("z".into(), Value::String("asdfioj{{}}".into())),
("i".into(), Value::String("".into())),
("longkey".into(), Value::Bool(true)),
("nope".into(), Value::Null),
])), "{´x´Ê´y´¢EMnFO´z´¨asdfioj{{}}¨´i´´´¨longkey¨»¨nope¨§}");
}

#[test]
fn object_test_nested() {
    test_stringify(Value::Object(IndexMap::from([
("x".into(), Value::Number(Int(1))),
("y".into(), Value::Number(Int(212301230))),
("z".into(), Value::String("asdfioj{{}}".into())),
("i".into(), Value::String("".into())),
("longkey".into(), Value::Bool(true)),
("nope".into(), Value::Null),
("float".into(), Value::Number(Float(113123.432))),
("nest".into(), Value::Object(IndexMap::from([
("x".into(), Value::Number(Int(1))),
("y".into(), Value::Number(Int(212301230))),
("float".into(), Value::Number(Float(0.312))),
("z".into(), Value::String("asdfioj{{}}".into())),
("i".into(), Value::String("".into())),
("longkey".into(), Value::Bool(true)),
("nope".into(), Value::Null),
("yep".into(), Value::Object(IndexMap::from([
("5".into(), Value::Array(vec![Value::Null])),
("string".into(), Value::String("\"\"asoidj{}sidofj".into())),
]))),
]))),
("array_nest".into(), Value::Array(vec![
            Value::Object(IndexMap::from([
("x".into(), Value::Number(Int(1))),
("y".into(), Value::Number(Int(212301230))),
("z".into(), Value::String("asdfioj{{}}".into())),
("i".into(), Value::String("".into())),
("longkey".into(), Value::Bool(true)),
("nope".into(), Value::Null),
])),
        ])),
])), "{´x´Ê´y´¢EMnFO´z´¨asdfioj{{}}¨´i´´´¨longkey¨»¨nope¨§¨float¨£TQZ.6y¨nest¨{´x´Ê´y´º0ß3£0.52´z´ß0´i´´´ß1»ß2§¨yep¨{´5´|§÷¨string¨¨\"\"asoidj{}sidofj¨}}¨array_nest¨|{´x´Ê´y´º0´z´ß0´i´´´ß1»ß2§}÷}");
}

#[test]
fn structure_test_empty() {
    test_stringify(
        Value::Object(IndexMap::new()),
        "{}",
    );
}

#[test]
fn structure_test_homogenous() {
    test_stringify(
        Value::Object(IndexMap::from([
            ("x".into(), Value::Number(Int(1))),
            ("y".into(), Value::Number(Int(2))),
            ("z".into(), Value::Number(Int(3))),
        ])),
        "{´x´Ê´y´Ë´z´Ì}",
    );
}

#[test]
fn structure_test_mixed() {
    test_stringify(
        Value::Object(IndexMap::from([
            ("x".into(), Value::Number(Int(1))),
            ("y".into(), Value::Number(Int(212301230))),
            ("z".into(), Value::String("asdfioj{{}}".into())),
            ("i".into(), Value::String("".into())),
            ("longkey".into(), Value::Bool(true)),
            ("nope".into(), Value::Null),
        ])),
        "{´x´Ê´y´¢EMnFO´z´¨asdfioj{{}}¨´i´´´¨longkey¨»¨nope¨§}",
    );
}

#[test]
fn structure_test_nested() {
    test_stringify(
        Value::Object(IndexMap::from([
            ("x".into(), Value::Number(Int(1))),
            ("y".into(), Value::Number(Int(212301230))),
            ("z".into(), Value::String("asdfioj{{}}".into())),
            ("i".into(), Value::String("".into())),
            ("longkey".into(), Value::Bool(true)),
            ("nope".into(), Value::Null),
            ("float".into(), Value::Number(Float(113123.432))),
            ("nest".into(), Value::Object(IndexMap::from([
            ("x".into(), Value::Number(Int(1))),
            ("y".into(), Value::Number(Int(212301230))),
            ("float".into(), Value::Number(Float(0.312))),
            ("z".into(), Value::String("asdfioj{{}}".into())),
            ("i".into(), Value::String("".into())),
            ("longkey".into(), Value::Bool(true)),
            ("nope".into(), Value::Null),
            ("yep".into(), Value::Object(IndexMap::from([
                ("5".into(), Value::Array(vec![Value::Null])),
                ("string".into(), Value::String("\"\"asoidj{}sidofj".into())),
            ]))),
        ]))),
            ("array_nest".into(), Value::Array(vec![Value::Object(IndexMap::from([
                ("x".into(), Value::Number(Int(1))),
                ("y".into(), Value::Number(Int(212301230))),
                ("z".into(), Value::String("asdfioj{{}}".into())),
                ("i".into(), Value::String("".into())),
                ("longkey".into(), Value::Bool(true)),
                ("nope".into(), Value::Null),
            ]))])),
        ])),
        "{´x´Ê´y´¢EMnFO´z´¨asdfioj{{}}¨´i´´´¨longkey¨»¨nope¨§¨float¨£TQZ.6y¨nest¨{´x´Ê´y´º0ß3£0.52´z´ß0´i´´´ß1»ß2§¨yep¨{´5´|§÷¨string¨¨\"\"asoidj{}sidofj¨}}¨array_nest¨|{´x´Ê´y´º0´z´ß0´i´´´ß1»ß2§}÷}",
    );
}

#[test]
fn structure_nest_newtype() {
    test_stringify(
        Value::String("string".into()),
        "¨string¨",
    );
    test_stringify(
        Value::Number(Int(123)),
        "¢1z",
    );
}

#[test]
fn structure_nest_newtype_nested() {
    test_stringify(
        Value::Object(IndexMap::from([
            ("x".into(), Value::Number(Int(1))),
            ("y".into(), Value::Number(Int(212301230))),
            ("float".into(), Value::Number(Float(0.312))),
            ("z".into(), Value::String("asdfioj{{}}".into())),
            ("i".into(), Value::String("".into())),
            ("longkey".into(), Value::Bool(true)),
            ("nope".into(), Value::Null),
            ("yep".into(), Value::Object(IndexMap::from([
                ("5".into(), Value::Array(vec![Value::Null])),
                ("string".into(), Value::String("\"\"asoidj{}sidofj".into())),
            ]))),
        ])),
        "{´x´Ê´y´¢EMnFO¨float¨£0.52´z´¨asdfioj{{}}¨´i´´´¨longkey¨»¨nope¨§¨yep¨{´5´|§÷¨string¨¨\"\"asoidj{}sidofj¨}}",
    );
}

#[test]
fn structure_test_unit() {
    test_stringify(
        Value::Null,
        "§",
    );
}

#[test]
fn structure_test_tuple() {
    test_stringify(
        Value::Array(vec![
            Value::String("string".into()),
            Value::Number(Int(212301230)),
            Value::Null,
            Value::Object(IndexMap::from([
            ("x".into(), Value::Number(Int(1))),
            ("y".into(), Value::Number(Int(212301230))),
            ("float".into(), Value::Number(Float(0.312))),
            ("z".into(), Value::String("asdfioj{{}}".into())),
            ("i".into(), Value::String("".into())),
            ("longkey".into(), Value::Bool(true)),
            ("nope".into(), Value::Null),
            ("yep".into(), Value::Object(IndexMap::from([
                ("5".into(), Value::Array(vec![Value::Null])),
                ("string".into(), Value::String("\"\"asoidj{}sidofj".into())),
            ]))),
        ])),
        ]),
        "|¨string¨¢EMnFO§{´x´Ê´y´º0¨float¨£0.52´z´¨asdfioj{{}}¨´i´´´¨longkey¨»¨nope¨§¨yep¨{´5´|§÷ß0¨\"\"asoidj{}sidofj¨}}÷",
    );
}

#[test]
fn enumeration_test_unit_like() {
    test_stringify(
        Value::String("String".into()),
        "¨String¨",
    );
    test_stringify(
        Value::String("Int".into()),
        "¨Int¨",
    );
    test_stringify(
        Value::String("Float".into()),
        "¨Float¨",
    );
}

#[test]
fn enumeration_test_tuple_like() {
    test_stringify(
        Value::Object(IndexMap::from([("Unit".into(), Value::Null)])),
        "{¨Unit¨§}",
    );
    test_stringify(
        Value::Object(IndexMap::from([("Empty".into(), Value::Array(vec![]))])),
        "{¨Empty¨|÷}",
    );
    test_stringify(
        Value::Object(IndexMap::from([("Value".into(), Value::Array(vec![
                Value::String("string".into()),
                Value::Number(Int(212301230)),
                Value::Number(Float(0.312)),
            ]))])),
        "{¨Value¨|¨string¨¢EMnFO£0.52÷}",
    );
}

#[test]
fn enumeration_test_struct_like() {
    test_stringify(
        Value::Object(IndexMap::from([("Empty".into(), Value::Object(IndexMap::new()))])),
        "{¨Empty¨{}}",
    );
    test_stringify(
        Value::Object(IndexMap::from([("Value".into(), Value::Object(IndexMap::from([
            ("string".into(), Value::String("string".into())),
            ("int".into(), Value::Number(Int(212301230))),
            ("float".into(), Value::Number(Float(0.312))),
        ])))])),
        "{¨Value¨{¨string¨ß1¨int¨¢EMnFO¨float¨£0.52}}",
    );
}

#[test]
fn enumeration_test_nested() {
    test_stringify(
        Value::String("None".into()),
        "¨None¨",
    );
    test_stringify(
        Value::Object(IndexMap::from([("Value".into(), Value::Object(IndexMap::from([
            ("string".into(), Value::String("string".into())),
            ("int".into(), Value::Number(Int(212301230))),
            ("float".into(), Value::Number(Float(0.312))),
            ("nested".into(), Value::Object(IndexMap::from([("Value".into(), Value::Array(vec![
                Value::String("string".into()),
                Value::Number(Int(212301230)),
                Value::Number(Float(0.312)),
            ]))]))),
        ])))])),
        "{¨Value¨{¨string¨ß1¨int¨¢EMnFO¨float¨£0.52¨nested¨{ß0|ß1º0Ý0÷}}}",
    );
}

use indexmap::IndexMap;
use serde_zipson::value as lib;

#[derive(Debug, PartialEq, Clone)]
enum Number {
    Int(i64),
    Float(f64),
}

#[allow(dead_code)]
#[derive(Debug, PartialEq, Clone)]
enum Value {
    Undefined,
    Null,
    Bool(bool),
    Number(Number),
    String(String),
    Array(Vec<Value>),
    Object(IndexMap<String, Value>),
}

use Number::{Float, Int};

fn float_value(f: &lib::Float) -> f64 {
    if f.digits.is_empty() {
        f.integer as f64 + f.thousandths as f64 / 1000_f64
    } else {
        let sign = if f.negative { "-0." } else { "0." };
        f.integer as f64 + format!("{}{}", sign, f.digits).parse::<f64>().unwrap()
    }
}

fn from_lib(value: &lib::Value) -> Value {
    match value {
        lib::Value::Undefined => Value::Undefined,
        lib::Value::Null => Value::Null,
        lib::Value::Bool(v) => Value::Bool(*v),
        lib::Value::Number(lib::Number::Int(v)) => Value::Number(Int(*v)),
        lib::Value::Number(lib::Number::Float(v)) => Value::Number(Float(float_value(v))),
        lib::Value::String(v) => Value::String(v.clone()),
        lib::Value::Array(v) => Value::Array(v.iter().map(from_lib).collect()),
        lib::Value::Object(v) => {
            Value::Object(v.iter().map(|(k, v)| (k.clone(), from_lib(v))).collect())
        }
    }
}

fn test_parse(str: &str, expected: Value) {
    let res = serde_zipson::de::from_str(str);
    assert_eq!(from_lib(&res.unwrap()), expected);
}

#[test]
fn test_null() {
    test_parse("§", Value::Null);
}

#[test]
fn test_bool() {
    test_parse("»", Value::Bool(true));
    test_parse("«", Value::Bool(false));
}

#[test]
fn test_small_integer() {
    test_parse("À", Value::Number(Int(-9)));
    test_parse("Á", Value::Number(Int(-8)));
    test_parse("Â", Value::Number(Int(-7)));
    test_parse("Ã", Value::Number(Int(-6)));
    test_parse("Ä", Value::Number(Int(-5)));
    test_parse("Å", Value::Number(Int(-4)));
    test_parse("Æ", Value::Number(Int(-3)));
    test_parse("Ç", Value::Number(Int(-2)));
    test_parse("È", Value::Number(Int(-1)));
    test_parse("É", Value::Number(Int(-0)));
    test_parse("É", Value::Number(Int(0)));
    test_parse("Ê", Value::Number(Int(1)));
    test_parse("Ë", Value::Number(Int(2)));
    test_parse("Ì", Value::Number(Int(3)));
    test_parse("Í", Value::Number(Int(4)));
    test_parse("Î", Value::Number(Int(5)));
    test_parse("Ï", Value::Number(Int(6)));
    test_parse("Ð", Value::Number(Int(7)));
    test_parse("Ñ", Value::Number(Int(8)));
    test_parse("Ò", Value::Number(Int(9)));
}

#[test]
fn test_big_integer() {
    test_parse("¤A", Value::Number(Int(10)));
    test_parse("¤z", Value::Number(Int(61)));
    test_parse("¢10", Value::Number(Int(62)));
    test_parse("¢pc6w", Value::Number(Int(12301230)));
    test_parse("¢2AGxFdG", Value::Number(Int(123012342310)));

    test_parse("¢-A", Value::Number(Int(-10)));
    test_parse("¢-pc6w", Value::Number(Int(-12301230)));
    test_parse("¢-2AH5Yxa", Value::Number(Int(-123014323230)));
}

#[test]
fn test_unreferenced_integer() {
    test_parse("|¤zÊ¤z÷", Value::Array(vec![
        Value::Number(Int(61)),
        Value::Number(Int(1)),
        Value::Number(Int(61)),
    ]));
}

#[test]
fn test_ref_integer() {
    test_parse("|¢1n¢3aº0º1º0º1÷", Value::Array(vec![
        Value::Number(Int(111)),
        Value::Number(Int(222)),
        Value::Number(Int(111)),
        Value::Number(Int(222)),
        Value::Number(Int(111)),
        Value::Number(Int(222)),
    ]));
}

#[test]
fn test_float_small() {
    test_parse("£0.0", Value::Number(Float(0.)));
    test_parse("£0.1", Value::Number(Float(0.001)));
    test_parse("£0.A", Value::Number(Float(0.01)));
    test_parse("£0.1c", Value::Number(Float(0.1)));
    test_parse("£0.1n", Value::Number(Float(0.111)));
    test_parse("£0.-1n", Value::Number(Float(-0.111)));
    test_parse("£5.G7", Value::Number(Float(5.999)));
    test_parse("£-F.-8x", Value::Number(Float(-15.555)));
}

#[test]
fn test_float_full_precision() {
    test_parse("£0,0", Value::Number(Float(0.)));
    test_parse("£5,9234827938", Value::Number(Float(5.9234827938)));
    test_parse("£-F,552345411", Value::Number(Float(-15.552345411)));
    test_parse("£0,552345411", Value::Number(Float(0.552345411)));
    test_parse("£-0,552345411", Value::Number(Float(-0.552345411)));
}

#[test]
fn test_unreferenced_float() {
    test_parse("|¥1,1£1c.1cÝ0÷", Value::Array(vec![
        Value::Number(Float(1.1)),
        Value::Number(Float(100.1)),
        Value::Number(Float(100.1)),
    ]));
}

#[test]
fn test_ref_float() {
    test_parse("|£1n.1c£3a.3EÝ0Ý1Ý0Ý1÷", Value::Array(vec![
        Value::Number(Float(111.1)),
        Value::Number(Float(222.2)),
        Value::Number(Float(111.1)),
        Value::Number(Float(222.2)),
        Value::Number(Float(111.1)),
        Value::Number(Float(222.2)),
    ]));
}

#[test]
fn test_empty_string() {
    test_parse("¨¨", Value::String("".into()));
    test_parse("´´", Value::String("".into()));
}

#[test]
fn test_short_string() {
    test_parse("´x´", Value::String("x".into()));
}

#[test]
fn test_short_string_single_quote() {
    test_parse("´'´", Value::String("'".into()));
}

#[test]
fn test_short_string_double_quote() {
    test_parse("´\"´", Value::String("\"".into()));
}

#[test]
fn test_short_string_string_token() {
    test_parse("¨\\¨¨", Value::String("¨".into()));
}

#[test]
fn test_short_string_unreferenced_string_token() {
    test_parse("´\\´´", Value::String("´".into()));
}

#[test]
fn test_short_string_escape_token() {
    test_parse("¨\\\\¨", Value::String("\\".into()));
}

#[test]
fn test_long_string() {
    test_parse("¨aoasdfjalisruhgalsiuhfdlsajdlifuashrlifuhsaildjfsalkhglasurflasjdfklsandfasurliausnlc¨", Value::String("aoasdfjalisruhgalsiuhfdlsajdlifuashrlifuhsaildjfsalkhglasurflasjdfklsandfasurliausnlc".into()));
}

#[test]
fn test_long_string_single_quote() {
    test_parse("¨'aoasdfjalisruhgals'iuhfdlsajdlifuashrlifuhsaildjfsalkhglasurflasjdfklsandfasurliausnlc'¨", Value::String("'aoasdfjalisruhgals'iuhfdlsajdlifuashrlifuhsaildjfsalkhglasurflasjdfklsandfasurliausnlc'".into()));
}

#[test]
fn test_long_string_double_quote() {
    test_parse("¨\"aoasdfjalisruhgals\"iuhfdlsajdlifuashrlifuhsaildjfsalkhglasurflasjdfklsandfasurliausnlc\"¨", Value::String("\"aoasdfjalisruhgals\"iuhfdlsajdlifuashrlifuhsaildjfsalkhglasurflasjdfklsandfasurliausnlc\"".into()));
}

#[test]
fn test_long_string_string_token() {
    test_parse("¨\\¨aoasdfjalisruhgals\\¨iuhfdlsajdlifuashrlifuhsaildjfsalkhglasurflasjdfklsandfasurliausnlc\\¨¨", Value::String("¨aoasdfjalisruhgals¨iuhfdlsajdlifuashrlifuhsaildjfsalkhglasurflasjdfklsandfasurliausnlc¨".into()));
}

#[test]
fn test_long_string_unreferenced_string_token() {
    test_parse("¨´aoasdfjalisruhgals´iuhfdlsajdlifuashrlifuhsaildjfsalkhglasurflasjdfklsandfasurliausnlc´¨", Value::String("´aoasdfjalisruhgals´iuhfdlsajdlifuashrlifuhsaildjfsalkhglasurflasjdfklsandfasurliausnlc´".into()));
}

#[test]
fn test_long_string_escape_token() {
    test_parse("¨\\\\aoasdfjalisruhgals\\\\\\\\iuhfdlsajdlifuashrlifuhsaildjfsalkhglasurflasjdfklsandfasurliausnlc¨", Value::String("\\aoasdfjalisruhgals\\\\iuhfdlsajdlifuashrlifuhsaildjfsalkhglasurflasjdfklsandfasurliausnlc".into()));
}

#[test]
fn test_unreferenced_string() {
    test_parse("|´x´¨aaa¨ß0÷", Value::Array(vec![
        Value::String("x".into()),
        Value::String("aaa".into()),
        Value::String("aaa".into()),
    ]));
}

#[test]
fn test_ref_string() {
    test_parse("|¨aaa¨¨bbb¨ß0ß1ß0ß1÷", Value::Array(vec![
        Value::String("aaa".into()),
        Value::String("bbb".into()),
        Value::String("aaa".into()),
        Value::String("bbb".into()),
        Value::String("aaa".into()),
        Value::String("bbb".into()),
    ]));
}

#[test]
fn test_string_date() {
    test_parse("øSyKTET5", Value::String("2022-02-24T04:31:00.123Z".into()));
}

#[test]
fn test_unreferenced_date() {
    test_parse("|¿1øSyKTESt×0÷", Value::Array(vec![
        Value::String("1970-01-01T00:00:00.001Z".into()),
        Value::String("2022-02-24T04:31:00.111Z".into()),
        Value::String("2022-02-24T04:31:00.111Z".into()),
    ]));
}

#[test]
fn test_ref_date() {
    test_parse("|øSyKTEStøSyKTEUg×0×1×0×1÷", Value::Array(vec![
        Value::String("2022-02-24T04:31:00.111Z".into()),
        Value::String("2022-02-24T04:31:00.222Z".into()),
        Value::String("2022-02-24T04:31:00.111Z".into()),
        Value::String("2022-02-24T04:31:00.222Z".into()),
        Value::String("2022-02-24T04:31:00.111Z".into()),
        Value::String("2022-02-24T04:31:00.222Z".into()),
    ]));
}

#[test]
fn test_empty_array() {
    test_parse("|÷", Value::Array(vec![]));
}

#[test]
fn test_one_null() {
    test_parse("|§÷", Value::Array(vec![Value::Null]));
}

#[test]
fn test_one_bool() {
    test_parse("|»÷", Value::Array(vec![Value::Bool(true)]));
    test_parse("|«÷", Value::Array(vec![Value::Bool(false)]));
}

#[test]
fn test_one_small_integer() {
    test_parse("|À÷", Value::Array(vec![Value::Number(Int(-9))]));
    test_parse("|Á÷", Value::Array(vec![Value::Number(Int(-8))]));
    test_parse("|Â÷", Value::Array(vec![Value::Number(Int(-7))]));
    test_parse("|Ã÷", Value::Array(vec![Value::Number(Int(-6))]));
    test_parse("|Ä÷", Value::Array(vec![Value::Number(Int(-5))]));
    test_parse("|Å÷", Value::Array(vec![Value::Number(Int(-4))]));
    test_parse("|Æ÷", Value::Array(vec![Value::Number(Int(-3))]));
    test_parse("|Ç÷", Value::Array(vec![Value::Number(Int(-2))]));
    test_parse("|È÷", Value::Array(vec![Value::Number(Int(-1))]));
    test_parse("|É÷", Value::Array(vec![Value::Number(Int(-0))]));
    test_parse("|Ê÷", Value::Array(vec![Value::Number(Int(1))]));
    test_parse("|Ë÷", Value::Array(vec![Value::Number(Int(2))]));
    test_parse("|Ì÷", Value::Array(vec![Value::Number(Int(3))]));
    test_parse("|Í÷", Value::Array(vec![Value::Number(Int(4))]));
    test_parse("|Î÷", Value::Array(vec![Value::Number(Int(5))]));
    test_parse("|Ï÷", Value::Array(vec![Value::Number(Int(6))]));
    test_parse("|Ð÷", Value::Array(vec![Value::Number(Int(7))]));
    test_parse("|Ñ÷", Value::Array(vec![Value::Number(Int(8))]));
    test_parse("|Ò÷", Value::Array(vec![Value::Number(Int(9))]));
}

#[test]
fn test_one_big_integer() {
    test_parse("|¤A÷", Value::Array(vec![Value::Number(Int(10))]));
    test_parse("|¤z÷", Value::Array(vec![Value::Number(Int(61))]));
    test_parse("|¢10÷", Value::Array(vec![Value::Number(Int(62))]));
    test_parse(
        "|¢pc6w÷",
        Value::Array(vec![Value::Number(Int(12301230))]),
    );
    test_parse(
        "|¢2AGxFdG÷",
        Value::Array(vec![Value::Number(Int(123012342310))]),
    );

    test_parse("|¢-A÷", Value::Array(vec![Value::Number(Int(-10))]));
    test_parse(
        "|¢-pc6w÷",
        Value::Array(vec![Value::Number(Int(-12301230))]),
    );
    test_parse(
        "|¢-2AH5Yxa÷",
        Value::Array(vec![Value::Number(Int(-123014323230))]),
    );
}

#[test]
fn test_one_float_small() {
    test_parse(
        "|£0.0÷",
        Value::Array(vec![Value::Number(Float(0.))]),
    );
    test_parse(
        "|£0.1÷",
        Value::Array(vec![Value::Number(Float(0.001))]),
    );
    test_parse(
        "|£0.A÷",
        Value::Array(vec![Value::Number(Float(0.01))]),
    );
    test_parse(
        "|£0.1c÷",
        Value::Array(vec![Value::Number(Float(0.1))]),
    );
    test_parse(
        "|£0.1n÷",
        Value::Array(vec![Value::Number(Float(0.111))]),
    );
    test_parse(
        "|£0.-1n÷",
        Value::Array(vec![Value::Number(Float(-0.111))]),
    );
    test_parse(
        "|£5.G7÷",
        Value::Array(vec![Value::Number(Float(5.999))]),
    );
    test_parse(
        "|£-F.-8x÷",
        Value::Array(vec![Value::Number(Float(-15.555))]),
    );
}

#[test]
fn test_one_float_full_precision() {
    test_parse(
        "|£0,0÷",
        Value::Array(vec![Value::Number(Float(0.))]),
    );
    test_parse(
        "|£5,9234827938÷",
        Value::Array(vec![Value::Number(Float(5.9234827938))]),
    );
    test_parse(
        "|£-F,552345411÷",
        Value::Array(vec![Value::Number(Float(-15.552345411))]),
    );
    test_parse(
        "|£0,552345411÷",
        Value::Array(vec![Value::Number(Float(0.552345411))]),
    );
    test_parse(
        "|£-0,552345411÷",
        Value::Array(vec![Value::Number(Float(-0.552345411))]),
    );
}

#[test]
fn test_one_empty_string() {
    test_parse("|¨¨÷", Value::Array(vec![Value::String("".into())]));
}

#[test]
fn test_one_short_string() {
    test_parse("|´x´÷", Value::Array(vec![Value::String("x".into())]));
}

#[test]
fn test_one_long_string() {
    test_parse(
        "|¨aoasdfjalisruhgalsiuhfdlsajdlifuashrlifuhsaildjfsalkhglasurflasjdfklsandfasurliausnlc¨÷",
        Value::Array(vec![Value::String(
            "aoasdfjalisruhgalsiuhfdlsajdlifuashrlifuhsaildjfsalkhglasurflasjdfklsandfasurliausnlc"
                .into(),
        )]),
    );
}

#[test]
fn test_one_date() {
    test_parse(
        "|øSyKTET5÷",
        Value::Array(vec![Value::String("2022-02-24T04:31:00.123Z".into())]),
    );
}

#[test]
fn test_repeat_scalar() {
    test_parse(
        "|´x´þ÷",
        Value::Array(vec![Value::String("x".into()), Value::String("x".into())]),
    );
}

#[test]
fn test_repeat_array() {
    test_parse(
        "||´x´þ÷þ÷",
        Value::Array(vec![
            Value::Array(vec![Value::String("x".into()), Value::String("x".into())]),
            Value::Array(vec![Value::String("x".into()), Value::String("x".into())]),
        ]),
    );
}

#[test]
fn test_repeat_object() {
    test_parse(
        "|{´x´´x´}þ÷",
        Value::Array(vec![
            Value::Object(IndexMap::from([("x".into(), Value::String("x".into()))])),
            Value::Object(IndexMap::from([("x".into(), Value::String("x".into()))])),
        ]),
    );
}

#[test]
fn test_repeat_scalar_multiple() {
    test_parse(
        "|´x´þþ´y´´z´þ÷",
        Value::Array(vec![
            Value::String("x".into()),
            Value::String("x".into()),
            Value::String("x".into()),
            Value::String("y".into()),
            Value::String("z".into()),
            Value::String("z".into()),
        ]),
    );
}

#[test]
fn test_repeat_many() {
    test_parse(
        "|´x´þ^2þþ÷",
        Value::Array(vec![
            Value::String("x".into()),
            Value::String("x".into()),
            Value::String("x".into()),
            Value::String("x".into()),
            Value::String("x".into()),
            Value::String("x".into()),
        ]),
    );
}

#[test]
fn test_repeat_many_with_trailing() {
    test_parse(
        "|´x´þ^2þþ´y´÷",
        Value::Array(vec![
            Value::String("x".into()),
            Value::String("x".into()),
            Value::String("x".into()),
            Value::String("x".into()),
            Value::String("x".into()),
            Value::String("x".into()),
            Value::String("y".into()),
        ]),
    );
}

#[test]
fn test_repeat_indexed() {
    test_parse(
        "|¨xyz¨ß0þþþ^1÷",
        Value::Array(vec![
            Value::String("xyz".into()),
            Value::String("xyz".into()),
            Value::String("xyz".into()),
            Value::String("xyz".into()),
            Value::String("xyz".into()),
            Value::String("xyz".into()),
        ]),
    );
}

#[test]
fn test_empty_object() {
    test_parse("{}", Value::Object(IndexMap::new()));
}

#[test]
fn de_object_test_homogenous() {
    test_parse("{´x´Ê´y´Ë´z´Ì}", Value::Object(IndexMap::from([
("x".into(), Value::Number(Int(1))),
("y".into(), Value::Number(Int(2))),
("z".into(), Value::Number(Int(3))),
])));
}

#[test]
fn de_object_test_mixed() {
    test_parse("{´x´Ê´y´¢EMnFO´z´¨asdfioj{{}}¨´i´´´¨longkey¨»¨nope¨§}", Value::Object(IndexMap::from([
("x".into(), Value::Number(Int(1))),
("y".into(), Value::Number(Int(212301230))),
("z".into(), Value::String("asdfioj{{}}".into())),
("i".into(), Value::String("".into())),
("longkey".into(), Value::Bool(true)),
("nope".into(), Value::Null),
])));
}

#[test]
fn de_object_test_nested() {
    test_parse("{´x´Ê´y´¢EMnFO´z´¨asdfioj{{}}¨´i´´´¨longkey¨»¨nope¨§¨float¨£TQZ.6y¨nest¨{´x´Ê´y´º0ß3£0.52´z´ß0´i´´´ß1»ß2§¨yep¨{´5´|§÷¨string¨¨\"\"asoidj{}sidofj¨}}¨array_nest¨|{´x´Ê´y´º0´z´ß0´i´´´ß1»ß2§}÷}", Value::Object(IndexMap::from([
("x".into(), Value::Number(Int(1))),
("y".into(), Value::Number(Int(212301230))),
("z".into(), Value::String("asdfioj{{}}".into())),
("i".into(), Value::String("".into())),
("longkey".into(), Value::Bool(true)),
("nope".into(), Value::Null),
("float".into(), Value::Number(Float(113123.432))),
("nest".into(), Value::Object(IndexMap::from([
("x".into(), Value::Number(Int(1))),
("y".into(), Value::Number(Int(212301230))),
("float".into(), Value::Number(Float(0.312))),
("z".into(), Value::String("asdfioj{{}}".into())),
("i".into(), Value::String("".into())),
("longkey".into(), Value::Bool(true)),
("nope".into(), Value::Null),
("yep".into(), Value::Object(IndexMap::from([
("5".into(), Value::Array(vec![Value::Null])),
("string".into(), Value::String("\"\"asoidj{}sidofj".into())),
]))),
]))),
("array_nest".into(), Value::Array(vec![
            Value::Object(IndexMap::from([
("x".into(), Value::Number(Int(1))),
("y".into(), Value::Number(Int(212301230))),
("z".into(), Value::String("asdfioj{{}}".into())),
("i".into(), Value::String("".into())),
("longkey".into(), Value::Bool(true)),
("nope".into(), Value::Null),
])),
        ])),
])));
}

#[test]
fn test_empty() {
    test_parse(
        "{}",
        Value::Object(IndexMap::new()),
    );
}

#[test]
fn de_structure_test_homogenous() {
    test_parse(
        "{´x´Ê´y´Ë´z´Ì}",
        Value::Object(IndexMap::from([
            ("x".into(), Value::Number(Int(1))),
            ("y".into(), Value::Number(Int(2))),
            ("z".into(), Value::Number(Int(3))),
        ])),
    );
}

#[test]
fn de_structure_test_mixed() {
    test_parse(
        "{´x´Ê´y´¢EMnFO´z´¨asdfioj{{}}¨´i´´´¨longkey¨»¨nope¨§}",
        Value::Object(IndexMap::from([
            ("x".into(), Value::Number(Int(1))),
            ("y".into(), Value::Number(Int(212301230))),
            ("z".into(), Value::String("asdfioj{{}}".into())),
            ("i".into(), Value::String("".into())),
            ("longkey".into(), Value::Bool(true)),
            ("nope".into(), Value::Null),
        ])),
    );
}

#[test]
fn de_structure_test_nested() {
    test_parse(
        "{´x´Ê´y´¢EMnFO´z´¨asdfioj{{}}¨´i´´´¨longkey¨»¨nope¨§¨float¨£TQZ.6y¨nest¨{´x´Ê´y´º0ß3£0.52´z´ß0´i´´´ß1»ß2§¨yep¨{´5´|§÷¨string¨¨\"\"asoidj{}sidofj¨}}¨array_nest¨|{´x´Ê´y´º0´z´ß0´i´´´ß1»ß2§}÷}",
        Value::Object(IndexMap::from([
            ("x".into(), Value::Number(Int(1))),
            ("y".into(), Value::Number(Int(212301230))),
            ("z".into(), Value::String("asdfioj{{}}".into())),
            ("i".into(), Value::String("".into())),
            ("longkey".into(), Value::Bool(true)),
            ("nope".into(), Value::Null),
            ("float".into(), Value::Number(Float(113123.432))),
            ("nest".into(), Value::Object(IndexMap::from([
            ("x".into(), Value::Number(Int(1))),
            ("y".into(), Value::Number(Int(212301230))),
            ("float".into(), Value::Number(Float(0.312))),
            ("z".into(), Value::String("asdfioj{{}}".into())),
            ("i".into(), Value::String("".into())),
            ("longkey".into(), Value::Bool(true)),
            ("nope".into(), Value::Null),
            ("yep".into(), Value::Object(IndexMap::from([
                ("5".into(), Value::Array(vec![Value::Null])),
                ("string".into(), Value::String("\"\"asoidj{}sidofj".into())),
            ]))),
        ]))),
            ("array_nest".into(), Value::Array(vec![Value::Object(IndexMap::from([
                ("x".into(), Value::Number(Int(1))),
                ("y".into(), Value::Number(Int(212301230))),
                ("z".into(), Value::String("asdfioj{{}}".into())),
                ("i".into(), Value::String("".into())),
                ("longkey".into(), Value::Bool(true)),
                ("nope".into(), Value::Null),
            ]))])),
        ])),
    );
}

#[test]
fn nest_newtype() {
    test_parse(
        "¨string¨",
        Value::String("string".into()),
    );
    test_parse(
        "¢1z",
        Value::Number(Int(123)),
    );
}

#[test]
fn nest_newtype_nested() {
    test_parse(
        "{´x´Ê´y´¢EMnFO¨float¨£0.52´z´¨asdfioj{{}}¨´i´´´¨longkey¨»¨nope¨§¨yep¨{´5´|§÷¨string¨¨\"\"asoidj{}sidofj¨}}",
        Value::Object(IndexMap::from([
            ("x".into(), Value::Number(Int(1))),
            ("y".into(), Value::Number(Int(212301230))),
            ("float".into(), Value::Number(Float(0.312))),
            ("z".into(), Value::String("asdfioj{{}}".into())),
            ("i".into(), Value::String("".into())),
            ("longkey".into(), Value::Bool(true)),
            ("nope".into(), Value::Null),
            ("yep".into(), Value::Object(IndexMap::from([
                ("5".into(), Value::Array(vec![Value::Null])),
                ("string".into(), Value::String("\"\"asoidj{}sidofj".into())),
            ]))),
        ])),
    );
}

#[test]
fn test_unit() {
    test_parse(
        "§",
        Value::Null,
    );
}

#[test]
fn test_tuple() {
    test_parse(
        "|¨string¨¢EMnFO§{´x´Ê´y´º0¨float¨£0.52´z´¨asdfioj{{}}¨´i´´´¨longkey¨»¨nope¨§¨yep¨{´5´|§÷ß0¨\"\"asoidj{}sidofj¨}}÷",
        Value::Array(vec![
            Value::String("string".into()),
            Value::Number(Int(212301230)),
            Value::Null,
            Value::Object(IndexMap::from([
            ("x".into(), Value::Number(Int(1))),
            ("y".into(), Value::Number(Int(212301230))),
            ("float".into(), Value::Number(Float(0.312))),
            ("z".into(), Value::String("asdfioj{{}}".into())),
            ("i".into(), Value::String("".into())),
            ("longkey".into(), Value::Bool(true)),
            ("nope".into(), Value::Null),
            ("yep".into(), Value::Object(IndexMap::from([
                ("5".into(), Value::Array(vec![Value::Null])),
                ("string".into(), Value::String("\"\"asoidj{}sidofj".into())),
            ]))),
        ])),
        ]),
    );
}

#[test]
fn test_unit_like() {
    test_parse(
        "¨String¨",
        Value::String("String".into()),
    );
    test_parse(
        "¨Int¨",
        Value::String("Int".into()),
    );
    test_parse(
        "¨Float¨",
        Value::String("Float".into()),
    );
}

#[test]
fn test_tuple_like() {
    test_parse(
        "{¨Unit¨§}",
        Value::Object(IndexMap::from([("Unit".into(), Value::Null)])),
    );
    test_parse(
        "{¨Empty¨|÷}",
        Value::Object(IndexMap::from([("Empty".into(), Value::Array(vec![]))])),
    );
    test_parse(
        "{¨Value¨|¨string¨¢EMnFO£0.52÷}",
        Value::Object(IndexMap::from([("Value".into(), Value::Array(vec![
                Value::String("string".into()),
                Value::Number(Int(212301230)),
                Value::Number(Float(0.312)),
            ]))])),
    );
}

#[test]
fn test_struct_like() {
    test_parse(
        "{¨Empty¨{}}",
        Value::Object(IndexMap::from([("Empty".into(), Value::Object(IndexMap::new()))])),
    );
    test_parse(
        "{¨Value¨{¨string¨ß1¨int¨¢EMnFO¨float¨£0.52}}",
        Value::Object(IndexMap::from([("Value".into(), Value::Object(IndexMap::from([
            ("string".into(), Value::String("string".into())),
            ("int".into(), Value::Number(Int(212301230))),
            ("float".into(), Value::Number(Float(0.312))),
        ])))])),
    );
}

#[test]
fn de_enumeration_test_nested() {
    test_parse(
        "¨None¨",
        Value::String("None".into()),
    );
    test_parse(
        "{¨Value¨{¨string¨ß1¨int¨¢EMnFO¨float¨£0.52¨nested¨{ß0|ß1º0Ý0÷}}}",
        Value::Object(IndexMap::from([("Value".into(), Value::Object(IndexMap::from([
            ("string".into(), Value::String("string".into())),
            ("int".into(), Value::Number(Int(212301230))),
            ("float".into(), Value::Number(Float(0.312))),
            ("nested".into(), Value::Object(IndexMap::from([("Value".into(), Value::Array(vec![
                Value::String("string".into()),
                Value::Number(Int(212301230)),
                Value::Number(Float(0.312)),
            ]))]))),
        ])))])),
    );
}

use xml_rpc::{Error, Value, XmlArray, XmlArrayData, XmlStruct, XmlStructItem, XmlValue};

fn s(x: &str) -> String {
    x.to_string()
}

fn arr(items: Vec<XmlValue>) -> XmlValue {
    XmlValue::Array(XmlArray { data: XmlArrayData { value: items } })
}

fn st(members: Vec<(&str, XmlValue)>) -> XmlValue {
    XmlValue::Struct(XmlStruct {
        members: members
            .into_iter()
            .map(|(n, v)| XmlStructItem { name: s(n), value: v })
            .collect(),
    })
}

#[test]
fn i4_and_int_tags_agree() {
    assert_eq!(XmlValue::I4(41).to_value(), Ok(Value::Int(41)));
    assert_eq!(XmlValue::Int(41).to_value(), Ok(Value::Int(41)));
    assert_eq!(XmlValue::I4(-7).to_value(), XmlValue::Int(-7).to_value());
    assert_eq!(XmlValue::I4(0).to_value(), XmlValue::Int(0).to_value());
    assert_eq!(XmlValue::I4(i32::MAX).to_value(), Ok(Value::Int(i32::MAX)));
    assert_eq!(XmlValue::Int(i32::MIN).to_value(), Ok(Value::Int(i32::MIN)));
}

#[test]
fn boolean_zero_is_false_nonzero_is_true() {
    assert_eq!(XmlValue::Bool(0).to_value(), Ok(Value::Bool(false)));
    assert_eq!(XmlValue::Bool(1).to_value(), Ok(Value::Bool(true)));
    assert_eq!(XmlValue::Bool(2).to_value(), Ok(Value::Bool(true)));
    assert_eq!(XmlValue::Bool(-5).to_value(), Ok(Value::Bool(true)));
}

#[test]
fn string_datetime_base64_kept_verbatim() {
    assert_eq!(XmlValue::Str(s("a&lt;b")).to_value(), Ok(Value::String(s("a&lt;b"))));
    assert_eq!(XmlValue::Str(s("")).to_value(), Ok(Value::String(s(""))));
    assert_eq!(
        XmlValue::DateTime(s("19980717T14:08:55")).to_value(),
        Ok(Value::DateTime(s("19980717T14:08:55")))
    );
    assert_eq!(XmlValue::Base64(s("eW91IGNhbid0")).to_value(), Ok(Value::Base64(s("eW91IGNhbid0"))));
}

#[test]
fn double_text_parses_or_fails() {
    assert_eq!(XmlValue::Double(s("abc")).to_value(), Err(Error::DoubleParse));
    assert_eq!(XmlValue::Double(s("3.14")).to_value(), Ok(Value::Double(s("3.14"))));
    let converted = XmlValue::Double(s("3.14")).to_value().unwrap();
    match converted {
        Value::Double(text) => assert_eq!(text.parse::<f64>().unwrap(), 3.14),
        other => panic!("expected a double, got {:?}", other),
    }
    assert_eq!(XmlValue::Double(s("-2.5e3")).to_value(), Ok(Value::Double(s("-2.5e3"))));
    assert_eq!(XmlValue::Double(s("")).to_value(), Err(Error::DoubleParse));
}

#[test]
fn array_keeps_order() {
    let x = arr(vec![XmlValue::Int(1), XmlValue::Str(s("a")), XmlValue::Bool(1)]);
    assert_eq!(
        x.to_value(),
        Ok(Value::Array(vec![Value::Int(1), Value::String(s("a")), Value::Bool(true)]))
    );
}

#[test]
fn empty_array_and_empty_struct() {
    assert_eq!(arr(vec![]).to_value(), Ok(Value::Array(vec![])));
    assert_eq!(st(vec![]).to_value(), Ok(Value::Struct(vec![])));
}

#[test]
fn struct_duplicate_member_last_wins() {
    let x = st(vec![("a", XmlValue::Int(1)), ("a", XmlValue::Int(2))]);
    assert_eq!(x.to_value(), Ok(Value::Struct(vec![(s("a"), Value::Int(2))])));
}

#[test]
fn struct_duplicate_keeps_first_position() {
    let x = st(vec![("a", XmlValue::Int(1)), ("b", XmlValue::Int(2)), ("a", XmlValue::Int(3))]);
    assert_eq!(
        x.to_value(),
        Ok(Value::Struct(vec![(s("a"), Value::Int(3)), (s("b"), Value::Int(2))]))
    );
}

#[test]
fn nested_composites_convert_recursively() {
    let inner = st(vec![("xs", arr(vec![XmlValue::Bool(0), XmlValue::I4(9)]))]);
    let x = arr(vec![inner, XmlValue::Double(s("1.5"))]);
    assert_eq!(
        x.to_value(),
        Ok(Value::Array(vec![
            Value::Struct(vec![(
                s("xs"),
                Value::Array(vec![Value::Bool(false), Value::Int(9)]),
            )]),
            Value::Double(s("1.5")),
        ]))
    );
}

#[test]
fn first_failing_child_aborts_array() {
    let x = arr(vec![XmlValue::Int(1), XmlValue::Double(s("nope")), XmlValue::Int(2)]);
    assert_eq!(x.to_value(), Err(Error::DoubleParse));
}

#[test]
fn failing_member_aborts_struct() {
    let x = st(vec![("good", XmlValue::Int(1)), ("bad", XmlValue::Double(s("x")))]);
    assert_eq!(x.to_value(), Err(Error::DoubleParse));
}

#[test]
fn error_descriptions_are_exact() {
    assert_eq!(Error::DoubleParse.description(), "Failed to parse double");
    assert_eq!(Error::FaultNotStruct.description(), "Illegal response structure for fault case.");
    assert_eq!(
        Error::FaultCodeMissing.description(),
        "Field \"faultCode\" is missing in fault response"
    );
    assert_eq!(
        Error::FaultCodeWrongType.description(),
        "Field \"faultCode\" needs to be an integer"
    );
    assert_eq!(
        Error::FaultStringMissing.description(),
        "Field \"faultString\" is missing in fault response"
    );
    assert_eq!(
        Error::FaultStringWrongType.description(),
        "Field \"faultString\" needs to be a string"
    );
}

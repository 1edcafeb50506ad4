use xml_rpc::{
    Call, Error, Response, Value, XmlCall, XmlParamData, XmlParams, XmlResponse,
    XmlResponseResult, XmlStruct, XmlStructItem, XmlValue,
};

fn s(x: &str) -> String {
    x.to_string()
}

fn params(values: Vec<XmlValue>) -> XmlParams {
    XmlParams { params: values.into_iter().map(|value| XmlParamData { value }).collect() }
}

fn fault_struct(members: Vec<(&str, XmlValue)>) -> XmlResponseResult {
    XmlResponseResult::Failure {
        value: XmlValue::Struct(XmlStruct {
            members: members
                .into_iter()
                .map(|(n, v)| XmlStructItem { name: s(n), value: v })
                .collect(),
        }),
    }
}

#[test]
fn method_call_with_one_int_param() {
    let call = XmlCall {
        name: s("examples.getStateName"),
        params: params(vec![XmlValue::Int(41)]),
    };
    assert_eq!(
        call.to_call(),
        Ok(Call { name: s("examples.getStateName"), params: vec![Value::Int(41)] })
    );
}

#[test]
fn method_call_with_no_params() {
    let call = XmlCall { name: s("ping"), params: params(vec![]) };
    assert_eq!(call.to_call(), Ok(Call { name: s("ping"), params: vec![] }));
}

#[test]
fn method_call_param_failure_aborts() {
    let call = XmlCall {
        name: s("m"),
        params: params(vec![XmlValue::Int(1), XmlValue::Double(s("bad"))]),
    };
    assert_eq!(call.to_call(), Err(Error::DoubleParse));
}

#[test]
fn successful_response_keeps_params_in_order() {
    let body = XmlResponseResult::Success(params(vec![
        XmlValue::Str(s("South Dakota")),
        XmlValue::Bool(1),
    ]));
    let resp = XmlResponse::Response(body);
    assert_eq!(
        resp.to_response(),
        Ok(Response::Success {
            params: vec![Value::String(s("South Dakota")), Value::Bool(true)],
        })
    );
}

#[test]
fn well_formed_fault_converts() {
    let body = fault_struct(vec![
        ("faultCode", XmlValue::Int(4)),
        ("faultString", XmlValue::Str(s("Too many parameters."))),
    ]);
    assert_eq!(
        XmlResponse::Response(body).to_response(),
        Ok(Response::Fault { code: 4, message: s("Too many parameters.") })
    );
}

#[test]
fn fault_extra_members_are_discarded() {
    let body = fault_struct(vec![
        ("extra", XmlValue::Bool(1)),
        ("faultCode", XmlValue::Int(-1)),
        ("faultString", XmlValue::Str(s("boom"))),
        ("more", XmlValue::Str(s("ignored"))),
    ]);
    assert_eq!(
        XmlResponse::Response(body).to_response(),
        Ok(Response::Fault { code: -1, message: s("boom") })
    );
}

#[test]
fn fault_missing_code_is_reported_as_missing() {
    let body = fault_struct(vec![("faultString", XmlValue::Str(s("oops")))]);
    let r = XmlResponse::Response(body).to_response();
    assert_eq!(r, Err(Error::FaultCodeMissing));
    assert_eq!(
        r.unwrap_err().description(),
        "Field \"faultCode\" is missing in fault response"
    );
}

#[test]
fn fault_string_typed_code_is_reported_as_wrong_type() {
    let body = fault_struct(vec![
        ("faultCode", XmlValue::Str(s("4"))),
        ("faultString", XmlValue::Str(s("oops"))),
    ]);
    let r = XmlResponse::Response(body).to_response();
    assert_eq!(r, Err(Error::FaultCodeWrongType));
    assert_eq!(r.unwrap_err().description(), "Field \"faultCode\" needs to be an integer");
}

#[test]
fn fault_missing_string_is_reported_as_missing() {
    let body = fault_struct(vec![("faultCode", XmlValue::Int(4))]);
    assert_eq!(XmlResponse::Response(body).to_response(), Err(Error::FaultStringMissing));
}

#[test]
fn fault_wrong_typed_string_is_reported() {
    let body = fault_struct(vec![
        ("faultCode", XmlValue::Int(4)),
        ("faultString", XmlValue::Int(5)),
    ]);
    assert_eq!(XmlResponse::Response(body).to_response(), Err(Error::FaultStringWrongType));
}

#[test]
fn fault_code_checked_before_fault_string() {
    let body = fault_struct(vec![("faultString", XmlValue::Int(5))]);
    assert_eq!(XmlResponse::Response(body).to_response(), Err(Error::FaultCodeMissing));
}

#[test]
fn fault_value_that_is_no_struct_fails() {
    let body = XmlResponseResult::Failure { value: XmlValue::Int(3) };
    let r = XmlResponse::Response(body).to_response();
    assert_eq!(r, Err(Error::FaultNotStruct));
    assert_eq!(r.unwrap_err().description(), "Illegal response structure for fault case.");
}

#[test]
fn fault_duplicate_member_uses_last_value() {
    let body = fault_struct(vec![
        ("faultCode", XmlValue::Int(1)),
        ("faultString", XmlValue::Str(s("first"))),
        ("faultCode", XmlValue::Int(2)),
    ]);
    assert_eq!(
        XmlResponse::Response(body).to_response(),
        Ok(Response::Fault { code: 2, message: s("first") })
    );
}

#[test]
fn fault_inner_conversion_error_propagates() {
    let body = fault_struct(vec![
        ("faultCode", XmlValue::Double(s("not a number"))),
        ("faultString", XmlValue::Str(s("x"))),
    ]);
    assert_eq!(XmlResponse::Response(body).to_response(), Err(Error::DoubleParse));
}

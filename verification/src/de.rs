//! Conversion from the tag-labelled XML tree to the typed XML-RPC model.
//!
//! The tree types here mirror the XML-RPC vocabulary: a `value` node with
//! one child per scalar or composite tag, `array`/`data`, `struct` with
//! `member` items, the `methodCall` envelope, and the `methodResponse`
//! envelope with its `params` and `fault` alternatives.  Each tree type
//! carries a conversion to the typed model; the `conv_*` specification
//! functions say exactly what every conversion returns, success and
//! failure alike.

use vstd::prelude::*;
use vstd::string::StringExecFns;
use crate::double::{double_text_valid, is_double_text};
use crate::value::{Call, CallModel, Error, Response, ResponseModel, Value, ValueModel};
use crate::value::{call_view, distinct_names, members_view, response_view, value_view, values_view};
use crate::value::{wf_value, wf_values};
use crate::value::{lemma_members_view_contains, lemma_members_view_get, lemma_members_view_update};

verus! {

/// A `value` node: one child, selected by its tag.  `I4` and `Int` both
/// carry an integer (the `i4` and `int` tags); `Bool` carries the integer
/// of a `boolean` tag; the text-bearing tags keep their text.
#[derive(Debug, PartialEq)]
pub enum XmlValue {
    I4(i32),
    Int(i32),
    Bool(i32),
    Str(String),
    Double(String),
    DateTime(String),
    Base64(String),
    Array(XmlArray),
    Struct(XmlStruct),
}

/// A `methodCall` envelope: the `methodName` text and the `params`
/// container.
#[derive(Debug, PartialEq)]
pub struct XmlCall {
    pub name: String,
    pub params: XmlParams,
}

/// A `methodResponse` envelope.
#[derive(Debug, PartialEq)]
pub enum XmlResponse {
    Response(XmlResponseResult),
}

/// The body of a `methodResponse`: a `params` container on success, or a
/// `fault` holding one value.
#[derive(Debug, PartialEq)]
pub enum XmlResponseResult {
    Success(XmlParams),
    Failure { value: XmlValue },
}

/// A `params` container: zero or more `param` wrappers.
#[derive(Debug, PartialEq)]
pub struct XmlParams {
    pub params: Vec<XmlParamData>,
}

/// One `param` wrapper holding exactly one value.
#[derive(Debug, PartialEq)]
pub struct XmlParamData {
    pub value: XmlValue,
}

/// An `array` node holding its `data` container.
#[derive(Debug, PartialEq)]
pub struct XmlArray {
    pub data: XmlArrayData,
}

/// The `data` container of an array: zero or more values.
#[derive(Debug, PartialEq)]
pub struct XmlArrayData {
    pub value: Vec<XmlValue>,
}

/// A `struct` node: zero or more `member` items.
#[derive(Debug, PartialEq)]
pub struct XmlStruct {
    pub members: Vec<XmlStructItem>,
}

/// One `member` of a struct: a `name` and a value.
#[derive(Debug, PartialEq)]
pub struct XmlStructItem {
    pub name: String,
    pub value: XmlValue,
}

/// What converting a `value` node returns: each scalar tag maps to its
/// value kind, a `double` is accepted exactly when its text is a valid
/// floating-point literal, and composites convert their children in
/// order, the first failure aborting the whole conversion.
pub open spec fn conv_value(x: XmlValue) -> Result<ValueModel, Error>
    decreases x,
{
    match x {
        XmlValue::I4(v) => Ok(ValueModel::Int(v as int)),
        XmlValue::Int(v) => Ok(ValueModel::Int(v as int)),
        XmlValue::Bool(v) => Ok(ValueModel::Bool(v != 0)),
        XmlValue::Str(s) => Ok(ValueModel::String(s@)),
        XmlValue::Double(s) => if is_double_text(s@) {
            Ok(ValueModel::Double(s@))
        } else {
            Err(Error::DoubleParse)
        },
        XmlValue::DateTime(s) => Ok(ValueModel::DateTime(s@)),
        XmlValue::Base64(s) => Ok(ValueModel::Base64(s@)),
        XmlValue::Array(a) => match conv_values(a.data.value@) {
            Ok(items) => Ok(ValueModel::Array(items)),
            Err(e) => Err(e),
        },
        XmlValue::Struct(st) => match conv_members(st.members@) {
            Ok(m) => Ok(ValueModel::Struct(m)),
            Err(e) => Err(e),
        },
    }
}

/// What converting a sequence of `value` nodes returns: their values in
/// order, or the first failure.
pub open spec fn conv_values(xs: Seq<XmlValue>) -> Result<Seq<ValueModel>, Error>
    decreases xs,
{
    if xs.len() == 0 {
        Ok(Seq::empty())
    } else {
        match conv_values(xs.subrange(0, xs.len() - 1)) {
            Ok(init) => match conv_value(xs[xs.len() - 1]) {
                Ok(v) => Ok(init.push(v)),
                Err(e) => Err(e),
            },
            Err(e) => Err(e),
        }
    }
}

/// What converting a list of `member` items returns: the name-to-value
/// map built in order, a later member overwriting an earlier one of the
/// same name, or the first failure.
pub open spec fn conv_members(ms: Seq<XmlStructItem>) -> Result<Map<Seq<char>, ValueModel>, Error>
    decreases ms,
{
    if ms.len() == 0 {
        Ok(Map::empty())
    } else {
        match conv_members(ms.subrange(0, ms.len() - 1)) {
            Ok(m) => match conv_value(ms[ms.len() - 1].value) {
                Ok(v) => Ok(m.insert(ms[ms.len() - 1].name@, v)),
                Err(e) => Err(e),
            },
            Err(e) => Err(e),
        }
    }
}

/// What converting a `params` container returns: the wrapped values in
/// wire order, or the first failure.
pub open spec fn conv_params(p: XmlParams) -> Result<Seq<ValueModel>, Error> {
    conv_values(p.params@.map(|i: int, d: XmlParamData| d.value))
}

/// What converting a `methodCall` returns: its name and its parameters,
/// or the first parameter failure.
pub open spec fn conv_call(c: XmlCall) -> Result<CallModel, Error> {
    match conv_params(c.params) {
        Ok(ps) => Ok(CallModel { name: c.name@, params: ps }),
        Err(e) => Err(e),
    }
}

/// What validating a fault struct returns: it must hold an integer
/// `faultCode` and a string `faultString`, each absence or wrong type
/// reported distinctly; every other member is discarded.
pub open spec fn conv_fault_struct(m: Map<Seq<char>, ValueModel>) -> Result<ResponseModel, Error> {
    if !m.contains_key("faultCode"@) {
        Err(Error::FaultCodeMissing)
    } else {
        match m["faultCode"@] {
            ValueModel::Int(code) => if !m.contains_key("faultString"@) {
                Err(Error::FaultStringMissing)
            } else {
                match m["faultString"@] {
                    ValueModel::String(message) => Ok(ResponseModel::Fault { code, message }),
                    _ => Err(Error::FaultStringWrongType),
                }
            },
            _ => Err(Error::FaultCodeWrongType),
        }
    }
}

/// What the fault path returns, given the converted fault value: the
/// value must be a struct, and its members must validate.
pub open spec fn conv_fault(v: Result<ValueModel, Error>) -> Result<ResponseModel, Error> {
    match v {
        Err(e) => Err(e),
        Ok(ValueModel::Struct(m)) => conv_fault_struct(m),
        Ok(_) => Err(Error::FaultNotStruct),
    }
}

/// What converting the body of a `methodResponse` returns: the parameters
/// on the success path, the validated fault on the fault path.
pub open spec fn conv_response_result(r: XmlResponseResult) -> Result<ResponseModel, Error> {
    match r {
        XmlResponseResult::Success(p) => match conv_params(p) {
            Ok(ps) => Ok(ResponseModel::Success { params: ps }),
            Err(e) => Err(e),
        },
        XmlResponseResult::Failure { value } => conv_fault(conv_value(value)),
    }
}

/// What converting a `methodResponse` returns.
pub open spec fn conv_response(r: XmlResponse) -> Result<ResponseModel, Error> {
    match r {
        XmlResponse::Response(body) => conv_response_result(body),
    }
}

/// A failing prefix fails the whole sequence with the same error.
proof fn lemma_conv_values_prefix_err(xs: Seq<XmlValue>, i: int, e: Error)
    requires
        0 <= i <= xs.len(),
        conv_values(xs.subrange(0, i)) == Err::<Seq<ValueModel>, Error>(e),
    ensures
        conv_values(xs) == Err::<Seq<ValueModel>, Error>(e),
    decreases xs.len() - i,
{
    if i == xs.len() {
        assert(xs.subrange(0, i) =~= xs);
    } else {
        assert(xs.subrange(0, i + 1).subrange(0, i) =~= xs.subrange(0, i));
        assert(conv_values(xs.subrange(0, i + 1)) == Err::<Seq<ValueModel>, Error>(e));
        lemma_conv_values_prefix_err(xs, i + 1, e);
    }
}

/// A failing prefix fails the whole member list with the same error.
proof fn lemma_conv_members_prefix_err(ms: Seq<XmlStructItem>, i: int, e: Error)
    requires
        0 <= i <= ms.len(),
        conv_members(ms.subrange(0, i)) == Err::<Map<Seq<char>, ValueModel>, Error>(e),
    ensures
        conv_members(ms) == Err::<Map<Seq<char>, ValueModel>, Error>(e),
    decreases ms.len() - i,
{
    if i == ms.len() {
        assert(ms.subrange(0, i) =~= ms);
    } else {
        assert(ms.subrange(0, i + 1).subrange(0, i) =~= ms.subrange(0, i));
        assert(conv_members(ms.subrange(0, i + 1)) == Err::<Map<Seq<char>, ValueModel>, Error>(e));
        lemma_conv_members_prefix_err(ms, i + 1, e);
    }
}

/// How an executable value conversion relates to its specification: on
/// success the returned value denotes exactly what `conv_value` says and
/// is well-formed; on failure the error is exactly the one `conv_value`
/// says.
pub open spec fn converts_value(x: XmlValue, r: Result<Value, Error>) -> bool {
    match r {
        Ok(v) => conv_value(x) == Ok::<ValueModel, Error>(value_view(v)) && wf_value(v),
        Err(e) => conv_value(x) == Err::<ValueModel, Error>(e),
    }
}

/// As [`converts_value`], for a sequence of `value` nodes.
pub open spec fn converts_values(xs: Seq<XmlValue>, r: Result<Vec<Value>, Error>) -> bool {
    match r {
        Ok(vs) => conv_values(xs) == Ok::<Seq<ValueModel>, Error>(values_view(vs@)) && wf_values(
            vs@,
        ),
        Err(e) => conv_values(xs) == Err::<Seq<ValueModel>, Error>(e),
    }
}

/// As [`converts_value`], for a list of `member` items: the returned
/// pairs bear distinct names and denote the member map.
pub open spec fn converts_members(
    ms: Seq<XmlStructItem>,
    r: Result<Vec<(String, Value)>, Error>,
) -> bool {
    match r {
        Ok(out) => conv_members(ms) == Ok::<Map<Seq<char>, ValueModel>, Error>(
            members_view(out@),
        ) && distinct_names(out@) && forall|k: int|
            0 <= k < out@.len() ==> wf_value((#[trigger] out@[k]).1),
        Err(e) => conv_members(ms) == Err::<Map<Seq<char>, ValueModel>, Error>(e),
    }
}

/// As [`converts_value`], for one `member` item.
pub open spec fn converts_member(m: XmlStructItem, r: Result<(String, Value), Error>) -> bool {
    match r {
        Ok(p) => p.0@ == m.name@ && conv_value(m.value) == Ok::<ValueModel, Error>(
            value_view(p.1),
        ) && wf_value(p.1),
        Err(e) => conv_value(m.value) == Err::<ValueModel, Error>(e),
    }
}

impl XmlValue {
    /// Convert this `value` node into a typed [`Value`].
    pub fn to_value(&self) -> (r: Result<Value, Error>)
        ensures
            converts_value(*self, r),
        decreases *self,
    {
        match self {
            XmlValue::I4(v) => Ok(Value::Int(*v)),
            XmlValue::Int(v) => Ok(Value::Int(*v)),
            XmlValue::Bool(v) => Ok(Value::Bool(*v != 0)),
            XmlValue::Str(s) => Ok(Value::String(s.clone())),
            XmlValue::Double(s) => if double_text_valid(s.as_str()) {
                Ok(Value::Double(s.clone()))
            } else {
                Err(Error::DoubleParse)
            },
            XmlValue::DateTime(s) => Ok(Value::DateTime(s.clone())),
            XmlValue::Base64(s) => Ok(Value::Base64(s.clone())),
            XmlValue::Array(a) => match a.to_values() {
                Ok(items) => Ok(Value::Array(items)),
                Err(e) => Err(e),
            },
            XmlValue::Struct(st) => match st.to_members() {
                Ok(ms) => Ok(Value::Struct(ms)),
                Err(e) => Err(e),
            },
        }
    }
}

impl XmlArray {
    /// Convert the values inside this array's `data` container.
    pub fn to_values(&self) -> (r: Result<Vec<Value>, Error>)
        ensures
            converts_values(self.data.value@, r),
        decreases *self,
    {
        self.data.to_values()
    }
}

impl XmlArrayData {
    /// Convert each value of this container, in order; the first failure
    /// aborts the whole conversion.
    pub fn to_values(&self) -> (r: Result<Vec<Value>, Error>)
        ensures
            converts_values(self.value@, r),
        decreases *self,
    {
        let n: usize = self.value.len();
        let mut out: Vec<Value> = Vec::new();
        let mut i: usize = 0;
        while i < n
            invariant
                n == self.value@.len(),
                i <= n,
                conv_values(self.value@.subrange(0, i as int)) == Ok::<Seq<ValueModel>, Error>(
                    values_view(out@),
                ),
                wf_values(out@),
            decreases n - i,
        {
            let x = &self.value[i];
            match x.to_value() {
                Ok(v) => {
                    let ghost prev = out@;
                    out.push(v);
                    proof {
                        let s = self.value@;
                        assert(s.subrange(0, i + 1).subrange(0, i as int) =~= s.subrange(
                            0,
                            i as int,
                        ));
                        assert(s.subrange(0, i + 1)[i as int] == s[i as int]);
                        assert(out@.subrange(0, prev.len() as int) =~= prev);
                        assert(values_view(out@) == values_view(prev).push(value_view(v)));
                        assert forall|k: int| 0 <= k < out@.len() implies wf_value(
                            #[trigger] out@[k],
                        ) by {
                            if k < prev.len() {
                                assert(out@[k] == prev[k]);
                            }
                        }
                    }
                },
                Err(e) => {
                    proof {
                        let s = self.value@;
                        assert(s.subrange(0, i + 1).subrange(0, i as int) =~= s.subrange(
                            0,
                            i as int,
                        ));
                        assert(s.subrange(0, i + 1)[i as int] == s[i as int]);
                        assert(conv_values(s.subrange(0, i + 1)) == Err::<
                            Seq<ValueModel>,
                            Error,
                        >(e));
                        lemma_conv_values_prefix_err(s, i + 1, e);
                    }
                    return Err(e);
                },
            }
            i += 1;
        }
        proof {
            assert(self.value@.subrange(0, n as int) =~= self.value@);
        }
        Ok(out)
    }
}

/// The index of the first member bearing `name`, if any.
fn find_member(ms: &Vec<(String, Value)>, name: &String) -> (r: Option<usize>)
    ensures
        match r {
            Some(j) => j < ms@.len() && ms@[j as int].0@ == name@ && forall|k: int|
                0 <= k < j ==> (#[trigger] ms@[k]).0@ != name@,
            None => forall|k: int| 0 <= k < ms@.len() ==> (#[trigger] ms@[k]).0@ != name@,
        },
{
    let n: usize = ms.len();
    let mut i: usize = 0;
    while i < n
        invariant
            n == ms@.len(),
            i <= n,
            forall|k: int| 0 <= k < i ==> (#[trigger] ms@[k]).0@ != name@,
        decreases n - i,
    {
        if ms[i].0 == *name {
            return Some(i);
        }
        i += 1;
    }
    None
}

impl XmlStruct {
    /// Convert each member in order, a later member overwriting an
    /// earlier one of the same name; the first failure aborts the whole
    /// conversion.
    pub fn to_members(&self) -> (r: Result<Vec<(String, Value)>, Error>)
        ensures
            converts_members(self.members@, r),
        decreases *self,
    {
        let n: usize = self.members.len();
        let mut out: Vec<(String, Value)> = Vec::new();
        let mut i: usize = 0;
        while i < n
            invariant
                n == self.members@.len(),
                i <= n,
                conv_members(self.members@.subrange(0, i as int)) == Ok::<
                    Map<Seq<char>, ValueModel>,
                    Error,
                >(members_view(out@)),
                distinct_names(out@),
                forall|k: int| 0 <= k < out@.len() ==> wf_value((#[trigger] out@[k]).1),
            decreases n - i,
        {
            let item = &self.members[i];
            match item.to_member() {
                Ok(p) => {
                    let ghost s = self.members@;
                    let ghost pname = p.0@;
                    let ghost pview = value_view(p.1);
                    proof {
                        assert(s.subrange(0, i + 1).subrange(0, i as int) =~= s.subrange(
                            0,
                            i as int,
                        ));
                        assert(s.subrange(0, i + 1)[i as int] == s[i as int]);
                    }
                    match find_member(&out, &p.0) {
                        Some(j) => {
                            let ghost prev = out@;
                            proof {
                                lemma_members_view_update(prev, j as int, p);
                            }
                            out.set(j, p);
                            proof {
                                assert(out@ == prev.update(j as int, p));
                                assert forall|k: int| 0 <= k < out@.len() implies (
                                #[trigger] out@[k]).0@ == prev[k].0@ by {
                                    if k != j {
                                        assert(out@[k] == prev[k]);
                                    }
                                }
                                assert(members_view(out@) == members_view(prev).insert(
                                    pname,
                                    pview,
                                ));
                            }
                        },
                        None => {
                            let ghost prev = out@;
                            out.push(p);
                            proof {
                                assert(out@.subrange(0, prev.len() as int) =~= prev);
                                assert(members_view(out@) == members_view(prev).insert(
                                    pname,
                                    pview,
                                ));
                                assert forall|k1: int, k2: int|
                                    0 <= k1 < k2 < out@.len() implies (#[trigger] out@[k1]).0@
                                    != (#[trigger] out@[k2]).0@ by {
                                    if k2 < prev.len() {
                                        assert(out@[k1] == prev[k1]);
                                        assert(out@[k2] == prev[k2]);
                                    } else {
                                        assert(out@[k2] == p);
                                        assert(out@[k1] == prev[k1]);
                                    }
                                }
                            }
                        },
                    }
                },
                Err(e) => {
                    proof {
                        let s = self.members@;
                        assert(s.subrange(0, i + 1).subrange(0, i as int) =~= s.subrange(
                            0,
                            i as int,
                        ));
                        assert(s.subrange(0, i + 1)[i as int] == s[i as int]);
                        assert(conv_members(s.subrange(0, i + 1)) == Err::<
                            Map<Seq<char>, ValueModel>,
                            Error,
                        >(e));
                        lemma_conv_members_prefix_err(s, i + 1, e);
                    }
                    return Err(e);
                },
            }
            i += 1;
        }
        proof {
            assert(self.members@.subrange(0, n as int) =~= self.members@);
        }
        Ok(out)
    }
}

impl XmlStructItem {
    /// Convert this member into its name-value pair.
    pub fn to_member(&self) -> (r: Result<(String, Value), Error>)
        ensures
            converts_member(*self, r),
        decreases *self,
    {
        match self.value.to_value() {
            Ok(v) => Ok((self.name.clone(), v)),
            Err(e) => Err(e),
        }
    }
}

impl XmlParams {
    /// Convert each `param`'s value, in wire order; the first failure
    /// aborts the whole conversion.
    pub fn to_values(&self) -> (r: Result<Vec<Value>, Error>)
        ensures
            match r {
                Ok(vs) => conv_params(*self) == Ok::<Seq<ValueModel>, Error>(values_view(vs@))
                    && wf_values(vs@),
                Err(e) => conv_params(*self) == Err::<Seq<ValueModel>, Error>(e),
            },
    {
        let ghost xs = self.params@.map(|k: int, d: XmlParamData| d.value);
        let n: usize = self.params.len();
        let mut out: Vec<Value> = Vec::new();
        let mut i: usize = 0;
        while i < n
            invariant
                n == self.params@.len(),
                xs == self.params@.map(|k: int, d: XmlParamData| d.value),
                i <= n,
                conv_values(xs.subrange(0, i as int)) == Ok::<Seq<ValueModel>, Error>(
                    values_view(out@),
                ),
                wf_values(out@),
            decreases n - i,
        {
            let d = &self.params[i];
            match d.to_value() {
                Ok(v) => {
                    let ghost prev = out@;
                    out.push(v);
                    proof {
                        assert(xs[i as int] == self.params@[i as int].value);
                        assert(xs.subrange(0, i + 1).subrange(0, i as int) =~= xs.subrange(
                            0,
                            i as int,
                        ));
                        assert(xs.subrange(0, i + 1)[i as int] == xs[i as int]);
                        assert(out@.subrange(0, prev.len() as int) =~= prev);
                        assert(values_view(out@) == values_view(prev).push(value_view(v)));
                        assert forall|k: int| 0 <= k < out@.len() implies wf_value(
                            #[trigger] out@[k],
                        ) by {
                            if k < prev.len() {
                                assert(out@[k] == prev[k]);
                            }
                        }
                    }
                },
                Err(e) => {
                    proof {
                        assert(xs[i as int] == self.params@[i as int].value);
                        assert(xs.subrange(0, i + 1).subrange(0, i as int) =~= xs.subrange(
                            0,
                            i as int,
                        ));
                        assert(xs.subrange(0, i + 1)[i as int] == xs[i as int]);
                        assert(conv_values(xs.subrange(0, i + 1)) == Err::<
                            Seq<ValueModel>,
                            Error,
                        >(e));
                        lemma_conv_values_prefix_err(xs, i + 1, e);
                    }
                    return Err(e);
                },
            }
            i += 1;
        }
        proof {
            assert(xs.subrange(0, n as int) =~= xs);
        }
        Ok(out)
    }
}

impl XmlParamData {
    /// Convert the single value this `param` wraps.
    pub fn to_value(&self) -> (r: Result<Value, Error>)
        ensures
            converts_value(self.value, r),
    {
        self.value.to_value()
    }
}

impl XmlCall {
    /// Convert this `methodCall` into a [`Call`].
    pub fn to_call(&self) -> (r: Result<Call, Error>)
        ensures
            match r {
                Ok(c) => conv_call(*self) == Ok::<CallModel, Error>(call_view(c)) && wf_values(
                    c.params@,
                ),
                Err(e) => conv_call(*self) == Err::<CallModel, Error>(e),
            },
    {
        match self.params.to_values() {
            Ok(ps) => Ok(Call { name: self.name.clone(), params: ps }),
            Err(e) => Err(e),
        }
    }
}

/// Validate a fault struct and extract its code and message.
fn fault_from_members(fields: &Vec<(String, Value)>) -> (r: Result<Response, Error>)
    requires
        distinct_names(fields@),
    ensures
        match r {
            Ok(resp) => conv_fault_struct(members_view(fields@)) == Ok::<ResponseModel, Error>(
                response_view(resp),
            ),
            Err(e) => conv_fault_struct(members_view(fields@)) == Err::<ResponseModel, Error>(e),
        },
{
    let code_key: String = String::from_str("faultCode");
    let code: i32 = match find_member(fields, &code_key) {
        None => {
            proof {
                lemma_members_view_contains(fields@, "faultCode"@);
            }
            return Err(Error::FaultCodeMissing);
        },
        Some(j) => {
            proof {
                assert forall|k: int| j < k < fields@.len() implies (#[trigger] fields@[k]).0@
                    != "faultCode"@ by {
                    assert(fields@[j as int].0@ == "faultCode"@);
                }
                lemma_members_view_get(fields@, "faultCode"@, j as int);
                crate::value::lemma_view_variants(fields@[j as int].1);
            }
            match &fields[j].1 {
                Value::Int(c) => *c,
                _ => {
                    return Err(Error::FaultCodeWrongType);
                },
            }
        },
    };
    let string_key: String = String::from_str("faultString");
    let message: String = match find_member(fields, &string_key) {
        None => {
            proof {
                lemma_members_view_contains(fields@, "faultString"@);
            }
            return Err(Error::FaultStringMissing);
        },
        Some(j) => {
            proof {
                assert forall|k: int| j < k < fields@.len() implies (#[trigger] fields@[k]).0@
                    != "faultString"@ by {
                    assert(fields@[j as int].0@ == "faultString"@);
                }
                lemma_members_view_get(fields@, "faultString"@, j as int);
                crate::value::lemma_view_variants(fields@[j as int].1);
            }
            match &fields[j].1 {
                Value::String(s) => s.clone(),
                _ => {
                    return Err(Error::FaultStringWrongType);
                },
            }
        },
    };
    Ok(Response::Fault { code, message })
}

impl XmlResponseResult {
    /// Convert this response body into a [`Response`], validating the
    /// fault structure on the fault path.
    pub fn to_response(&self) -> (r: Result<Response, Error>)
        ensures
            match r {
                Ok(resp) => conv_response_result(*self) == Ok::<ResponseModel, Error>(
                    response_view(resp),
                ),
                Err(e) => conv_response_result(*self) == Err::<ResponseModel, Error>(e),
            },
    {
        match self {
            XmlResponseResult::Success(p) => match p.to_values() {
                Ok(vs) => Ok(Response::Success { params: vs }),
                Err(e) => Err(e),
            },
            XmlResponseResult::Failure { value } => match value.to_value() {
                Err(e) => Err(e),
                Ok(v) => {
                    proof {
                        crate::value::lemma_view_variants(v);
                    }
                    match v {
                        Value::Struct(fields) => fault_from_members(&fields),
                        _ => Err(Error::FaultNotStruct),
                    }
                },
            },
        }
    }
}

impl XmlResponse {
    /// Convert this `methodResponse` into a [`Response`].
    pub fn to_response(&self) -> (r: Result<Response, Error>)
        ensures
            match r {
                Ok(resp) => conv_response(*self) == Ok::<ResponseModel, Error>(
                    response_view(resp),
                ),
                Err(e) => conv_response(*self) == Err::<ResponseModel, Error>(e),
            },
    {
        match self {
            XmlResponse::Response(body) => body.to_response(),
        }
    }
}

/// The `i4` and `int` tags carry no distinction: for every integer, both
/// convert to the very same value.
pub proof fn lemma_i4_int_agree(v: i32)
    ensures
        conv_value(XmlValue::I4(v)) == conv_value(XmlValue::Int(v)),
        conv_value(XmlValue::I4(v)) == Ok::<ValueModel, Error>(ValueModel::Int(v as int)),
{
}

/// A `boolean` tag converts zero to `false` and every other integer to
/// `true`.
pub proof fn lemma_bool_conversion(v: i32)
    ensures
        conv_value(XmlValue::Bool(v)) == Ok::<ValueModel, Error>(ValueModel::Bool(v != 0)),
        v == 0 ==> conv_value(XmlValue::Bool(v)) == Ok::<ValueModel, Error>(
            ValueModel::Bool(false),
        ),
        v != 0 ==> conv_value(XmlValue::Bool(v)) == Ok::<ValueModel, Error>(
            ValueModel::Bool(true),
        ),
{
}

} // verus!

//! The typed XML-RPC data model: values, calls, responses, and the errors
//! a conversion can report, together with the mathematical model that the
//! conversion contracts speak of.

use vstd::prelude::*;
use crate::double::is_double_text;

verus! {

/// One XML-RPC datum: six scalar kinds and two composite kinds.
///
/// A `Double` keeps the wire text of the number rather than a machine
/// float; conversion only accepts text that is a valid floating-point
/// literal (see [`is_double_text`]), and turning it into a float is left
/// to the caller.  `DateTime` and `Base64` keep their text verbatim: no
/// calendar validation and no decoding happens at this layer.  A `Struct`
/// holds its members as name-value pairs; converted structs have pairwise
/// distinct names, a later duplicate on the wire overwriting the earlier
/// member.
#[derive(Debug, PartialEq)]
pub enum Value {
    Int(i32),
    Bool(bool),
    String(String),
    Double(String),
    DateTime(String),
    Base64(String),
    Array(Vec<Value>),
    Struct(Vec<(String, Value)>),
}

/// One XML-RPC method invocation: a method name and its parameters in wire
/// order.
#[derive(Debug, PartialEq)]
pub struct Call {
    pub name: String,
    pub params: Vec<Value>,
}

/// One XML-RPC method response: either the parameters of a successful
/// call, in wire order, or a fault with its numeric code and message.
#[derive(Debug, PartialEq)]
pub enum Response {
    Success { params: Vec<Value> },
    Fault { code: i32, message: String },
}

/// Why a conversion failed.  Each variant names one precise cause;
/// [`Error::description`] gives the message text.
#[derive(Debug, PartialEq, Eq)]
pub enum Error {
    /// The text of a `double` node is not a valid floating-point literal.
    DoubleParse,
    /// The value inside a `fault` is not a struct.
    FaultNotStruct,
    /// The fault struct has no `faultCode` member.
    FaultCodeMissing,
    /// The fault struct's `faultCode` member is not an integer.
    FaultCodeWrongType,
    /// The fault struct has no `faultString` member.
    FaultStringMissing,
    /// The fault struct's `faultString` member is not a string.
    FaultStringWrongType,
}

impl Error {
    /// The message text of each failure, as a caller would print it.
    pub open spec fn text(self) -> Seq<char> {
        match self {
            Error::DoubleParse => "Failed to parse double"@,
            Error::FaultNotStruct => "Illegal response structure for fault case."@,
            Error::FaultCodeMissing => "Field \"faultCode\" is missing in fault response"@,
            Error::FaultCodeWrongType => "Field \"faultCode\" needs to be an integer"@,
            Error::FaultStringMissing => "Field \"faultString\" is missing in fault response"@,
            Error::FaultStringWrongType => "Field \"faultString\" needs to be a string"@,
        }
    }

    /// A human-readable description of the failure.
    pub fn description(&self) -> (r: &'static str)
        ensures
            r@ == self.text(),
    {
        match self {
            Error::DoubleParse => "Failed to parse double",
            Error::FaultNotStruct => "Illegal response structure for fault case.",
            Error::FaultCodeMissing => "Field \"faultCode\" is missing in fault response",
            Error::FaultCodeWrongType => "Field \"faultCode\" needs to be an integer",
            Error::FaultStringMissing => "Field \"faultString\" is missing in fault response",
            Error::FaultStringWrongType => "Field \"faultString\" needs to be a string",
        }
    }
}

/// The mathematical shape of a [`Value`]: text as a sequence of
/// characters, an integer unbounded, a struct as a map from member name to
/// member value.
pub enum ValueModel {
    Int(int),
    Bool(bool),
    String(Seq<char>),
    Double(Seq<char>),
    DateTime(Seq<char>),
    Base64(Seq<char>),
    Array(Seq<ValueModel>),
    Struct(Map<Seq<char>, ValueModel>),
}

/// The mathematical shape of a [`Call`].
pub struct CallModel {
    pub name: Seq<char>,
    pub params: Seq<ValueModel>,
}

/// The mathematical shape of a [`Response`].
pub enum ResponseModel {
    Success { params: Seq<ValueModel> },
    Fault { code: int, message: Seq<char> },
}

/// What a [`Value`] denotes.
pub open spec fn value_view(v: Value) -> ValueModel
    decreases v,
{
    match v {
        Value::Int(i) => ValueModel::Int(i as int),
        Value::Bool(b) => ValueModel::Bool(b),
        Value::String(s) => ValueModel::String(s@),
        Value::Double(s) => ValueModel::Double(s@),
        Value::DateTime(s) => ValueModel::DateTime(s@),
        Value::Base64(s) => ValueModel::Base64(s@),
        Value::Array(items) => ValueModel::Array(values_view(items@)),
        Value::Struct(members) => ValueModel::Struct(members_view(members@)),
    }
}

/// What a sequence of values denotes, element by element.
pub open spec fn values_view(vs: Seq<Value>) -> Seq<ValueModel>
    decreases vs,
{
    if vs.len() == 0 {
        Seq::empty()
    } else {
        values_view(vs.subrange(0, vs.len() - 1)).push(value_view(vs[vs.len() - 1]))
    }
}

/// What a list of struct members denotes: the name-to-value map built by
/// inserting the pairs in order, a later pair overwriting an earlier one
/// of the same name.
pub open spec fn members_view(ms: Seq<(String, Value)>) -> Map<Seq<char>, ValueModel>
    decreases ms,
{
    if ms.len() == 0 {
        Map::empty()
    } else {
        members_view(ms.subrange(0, ms.len() - 1)).insert(
            ms[ms.len() - 1].0@,
            value_view(ms[ms.len() - 1].1),
        )
    }
}

/// What a [`Call`] denotes.
pub open spec fn call_view(c: Call) -> CallModel {
    CallModel { name: c.name@, params: values_view(c.params@) }
}

/// What a [`Response`] denotes.
pub open spec fn response_view(r: Response) -> ResponseModel {
    match r {
        Response::Success { params } => ResponseModel::Success { params: values_view(params@) },
        Response::Fault { code, message } => ResponseModel::Fault {
            code: code as int,
            message: message@,
        },
    }
}

/// Well-formedness of a converted value: every `Double` holds valid
/// floating-point text, and the member names of every `Struct` are
/// pairwise distinct.
pub open spec fn wf_value(v: Value) -> bool
    decreases v,
{
    match v {
        Value::Double(s) => is_double_text(s@),
        Value::Array(items) => forall|i: int|
            0 <= i < items@.len() ==> wf_value(#[trigger] items@[i]),
        Value::Struct(members) => {
            &&& forall|i: int, j: int|
                0 <= i < j < members@.len() ==> (#[trigger] members@[i]).0@ != (
                #[trigger] members@[j]).0@
            &&& forall|i: int| 0 <= i < members@.len() ==> wf_value((#[trigger] members@[i]).1)
        },
        _ => true,
    }
}

/// Well-formedness of every value of a sequence.
pub open spec fn wf_values(vs: Seq<Value>) -> bool {
    forall|i: int| 0 <= i < vs.len() ==> wf_value(#[trigger] vs[i])
}

/// Pairwise distinct member names.
pub open spec fn distinct_names(ms: Seq<(String, Value)>) -> bool {
    forall|k1: int, k2: int|
        0 <= k1 < k2 < ms.len() ==> (#[trigger] ms[k1]).0@ != (#[trigger] ms[k2]).0@
}

/// A value and what it denotes are always of the same kind.
pub proof fn lemma_view_variants(v: Value)
    ensures
        (value_view(v) is Int) == (v is Int),
        (value_view(v) is Bool) == (v is Bool),
        (value_view(v) is String) == (v is String),
        (value_view(v) is Double) == (v is Double),
        (value_view(v) is DateTime) == (v is DateTime),
        (value_view(v) is Base64) == (v is Base64),
        (value_view(v) is Array) == (v is Array),
        (value_view(v) is Struct) == (v is Struct),
{
    match v {
        Value::Int(_) => {},
        Value::Bool(_) => {},
        Value::String(_) => {},
        Value::Double(_) => {},
        Value::DateTime(_) => {},
        Value::Base64(_) => {},
        Value::Array(_) => {},
        Value::Struct(_) => {},
    }
}

/// The member map holds a name exactly when some member bears it.
pub proof fn lemma_members_view_contains(ms: Seq<(String, Value)>, key: Seq<char>)
    ensures
        members_view(ms).contains_key(key) == exists|k: int|
            0 <= k < ms.len() && (#[trigger] ms[k]).0@ == key,
    decreases ms.len(),
{
    if ms.len() == 0 {
    } else {
        let init = ms.subrange(0, ms.len() - 1);
        lemma_members_view_contains(init, key);
        if ms[ms.len() - 1].0@ == key {
            assert((ms[ms.len() - 1]).0@ == key);
        } else {
            if exists|k: int| 0 <= k < ms.len() && (#[trigger] ms[k]).0@ == key {
                let k = choose|k: int| 0 <= k < ms.len() && (#[trigger] ms[k]).0@ == key;
                assert(init[k] == ms[k]);
            }
            if exists|k: int| 0 <= k < init.len() && (#[trigger] init[k]).0@ == key {
                let k = choose|k: int| 0 <= k < init.len() && (#[trigger] init[k]).0@ == key;
                assert(ms[k] == init[k]);
            }
        }
    }
}

/// Looking a name up in the member map gives the value of the last member
/// that bears it.
pub proof fn lemma_members_view_get(ms: Seq<(String, Value)>, key: Seq<char>, j: int)
    requires
        0 <= j < ms.len(),
        ms[j].0@ == key,
        forall|k: int| j < k < ms.len() ==> (#[trigger] ms[k]).0@ != key,
    ensures
        members_view(ms).contains_key(key),
        members_view(ms)[key] == value_view(ms[j].1),
    decreases ms.len(),
{
    let init = ms.subrange(0, ms.len() - 1);
    if j == ms.len() - 1 {
    } else {
        assert(init[j] == ms[j]);
        assert forall|k: int| j < k < init.len() implies (#[trigger] init[k]).0@ != key by {
            assert(init[k] == ms[k]);
        }
        lemma_members_view_get(init, key, j);
        assert(ms[ms.len() - 1].0@ != key);
    }
}

/// Replacing the member that bears a name changes the member map the same
/// way as inserting the new pair.
pub proof fn lemma_members_view_update(ms: Seq<(String, Value)>, j: int, p: (String, Value))
    requires
        0 <= j < ms.len(),
        ms[j].0@ == p.0@,
        distinct_names(ms),
    ensures
        members_view(ms.update(j, p)) == members_view(ms).insert(p.0@, value_view(p.1)),
    decreases ms.len(),
{
    let u = ms.update(j, p);
    let init = ms.subrange(0, ms.len() - 1);
    let uinit = u.subrange(0, u.len() - 1);
    if j == ms.len() - 1 {
        assert(uinit =~= init);
        assert(u[u.len() - 1] == p);
        assert(members_view(init).insert(ms[ms.len() - 1].0@, value_view(ms[ms.len() - 1].1)).insert(
            p.0@,
            value_view(p.1),
        ) =~= members_view(init).insert(p.0@, value_view(p.1)));
    } else {
        assert(uinit =~= init.update(j, p));
        assert(init[j] == ms[j]);
        assert forall|k1: int, k2: int| 0 <= k1 < k2 < init.len() implies (#[trigger] init[k1]).0@
            != (#[trigger] init[k2]).0@ by {
            assert(init[k1] == ms[k1]);
            assert(init[k2] == ms[k2]);
        }
        lemma_members_view_update(init, j, p);
        assert(u[u.len() - 1] == ms[ms.len() - 1]);
        assert(ms[ms.len() - 1].0@ != p.0@);
        let last = ms[ms.len() - 1];
        assert(members_view(init).insert(p.0@, value_view(p.1)).insert(
            last.0@,
            value_view(last.1),
        ) =~= members_view(init).insert(last.0@, value_view(last.1)).insert(
            p.0@,
            value_view(p.1),
        ));
    }
}

} // verus!

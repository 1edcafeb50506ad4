//! A typed view of XML-RPC data.
//!
//! The crate turns an already-parsed, tag-labelled XML tree into the closed
//! set of XML-RPC values: the six scalar kinds, arrays, and structs, plus
//! the two envelopes, a method call and a method response.  Every
//! conversion is all-or-nothing: the first malformed piece of data stops
//! the walk and is reported precisely.

mod de;
mod double;
mod value;

pub use double::{double_text_valid, exponent_ok, is_digit_char, is_double_text, is_exp_char};
pub use double::{is_sign_char, mantissa_ok, number_ok, number_split_at, special_ok, unsigned_part};
pub use value::{Call, CallModel, Error, Response, ResponseModel, Value, ValueModel};
pub use value::{call_view, distinct_names, members_view, response_view, value_view, values_view};
pub use value::{wf_value, wf_values};
pub use value::{lemma_members_view_contains, lemma_members_view_get, lemma_members_view_update};
pub use de::{XmlArray, XmlArrayData, XmlCall, XmlParamData, XmlParams, XmlResponse};
pub use de::{XmlResponseResult, XmlStruct, XmlStructItem, XmlValue};
pub use de::{conv_call, conv_fault, conv_fault_struct, conv_members, conv_params};
pub use de::{conv_response, conv_response_result, conv_value, conv_values};
pub use de::{converts_member, converts_members, converts_value, converts_values};
pub use de::{lemma_bool_conversion, lemma_i4_int_agree};
pub use value::lemma_view_variants;

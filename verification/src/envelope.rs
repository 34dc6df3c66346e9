//! The outbound request envelope and the catalogue of remote methods.
//!
//! An envelope is `{"method": <name>}` or `{"method": <name>, "data": <params>}`;
//! the `data` field is omitted entirely when a method takes no parameters.
//! The catalogue lists each known method's wire name, whether it takes
//! parameters, and whether its response wraps the payload in an `info` field.

use vstd::prelude::*;
use crate::json::{Json, JVal, jval_of, jobj_of, obj_lookup, lemma_jobj_of};
use crate::ser::{ser_jval, to_bytes};
use crate::parse::parse_doc;
use crate::roundtrip::{jval_bounded, jfields_bounded, lemma_parse_doc_ser};
use crate::frame::{MAX_FRAME_LEN, spec_frame, lemma_frame_round_trip};
use vstd::bytes::spec_u32_from_le_bytes;

verus! {

/// One request: a method name and optional structured parameters. Built
/// fresh for each call and never reused.
pub struct MsgTemplate {
    pub method: String,
    pub data: Option<Json>,
}

/// The structured value an envelope serializes as.
pub open spec fn envelope_jval(m: Seq<char>, d: Option<JVal>) -> JVal {
    match d {
        None => JVal::Obj(seq![("method"@, JVal::Str(m))]),
        Some(v) => JVal::Obj(seq![("method"@, JVal::Str(m)), ("data"@, v)]),
    }
}

/// Reading an envelope back out of a structured value: the `method` field
/// must be a string; `data` is whatever stands under that key, if anything.
pub open spec fn envelope_of(v: JVal) -> Option<(Seq<char>, Option<JVal>)> {
    match v {
        JVal::Obj(fields) => match obj_lookup(fields, "method"@) {
            Some(m) => match m {
                JVal::Str(name) => Some((name, obj_lookup(fields, "data"@))),
                _ => None,
            },
            _ => None,
        },
        _ => None,
    }
}

/// Model of an envelope's optional parameters.
pub open spec fn opt_jval(d: Option<Json>) -> Option<JVal> {
    match d {
        Some(j) => Some(jval_of(j)),
        None => None,
    }
}

/// Serializes the envelope to its wire payload (not yet framed).
pub fn encode_request(msg: &MsgTemplate) -> (r: Vec<u8>)
    ensures
        r@ == ser_jval(envelope_jval(msg.method@, opt_jval(msg.data))),
{
    broadcast use lemma_jobj_of;

    let mut fields: Vec<(String, Json)> = Vec::new();
    fields.push(("method".to_owned(), Json::Str(msg.method.clone())));
    match &msg.data {
        Some(d) => {
            fields.push(("data".to_owned(), d.clone()));
            let obj = Json::Obj(fields);
            proof {
                assert(jobj_of(obj->Obj_0@) =~= seq![
                    ("method"@, JVal::Str(msg.method@)),
                    ("data"@, jval_of(msg.data->0)),
                ]);
            }
            to_bytes(&obj)
        },
        None => {
            let obj = Json::Obj(fields);
            proof {
                assert(jobj_of(obj->Obj_0@) =~= seq![("method"@, JVal::Str(msg.method@))]);
            }
            to_bytes(&obj)
        },
    }
}

/// Reads a parsed request payload back into its method name and parameters,
/// as a stub endpoint would. Succeeds exactly when the value is an object
/// whose `method` field is a string.
pub fn decode_envelope(j: &Json) -> (r: Option<(String, Option<Json>)>)
    ensures
        match r {
            Some(p) => envelope_of(j@) == Some(
                (p.0@, match p.1 { Some(d) => Some(d@), None => None }),
            ),
            None => envelope_of(j@) is None,
        },
{
    let name = match j.get("method") {
        Some(m) => match m {
            Json::Str(s) => s.clone(),
            _ => {
                return None;
            },
        },
        None => {
            return None;
        },
    };
    match j.get("data") {
        Some(d) => Some((name, Some(d.clone()))),
        None => Some((name, None)),
    }
}

/// The envelope's two keys differ.
proof fn lemma_envelope_keys()
    ensures
        "method"@ != "data"@,
{
    reveal_strlit("method");
    reveal_strlit("data");
    assert("method"@.len() == 6);
    assert("data"@.len() == 4);
}

/// Round trip of a request envelope: serializing it, framing it, then
/// deframing, parsing and reading it back yields the method/parameter pair
/// it was built from, for any method name and any bounded parameters that
/// fit in a frame. Parameters taken from an executable `Json` value are
/// always bounded (`crate::roundtrip::lemma_jval_of_bounded`).
pub proof fn lemma_request_round_trip(m: Seq<char>, d: Option<JVal>)
    requires
        match d {
            Some(v) => jval_bounded(v),
            None => true,
        },
        ser_jval(envelope_jval(m, d)).len() <= MAX_FRAME_LEN,
    ensures
        ({
            let payload = ser_jval(envelope_jval(m, d));
            let framed = spec_frame(payload);
            framed.skip(4) == payload && spec_u32_from_le_bytes(framed.take(4)) == payload.len()
                && parse_doc(payload) == Some(envelope_jval(m, d)) && envelope_of(
                envelope_jval(m, d),
            ) == Some((m, d))
        }),
{
    let v = envelope_jval(m, d);
    lemma_envelope_keys();
    assert(jfields_bounded(Seq::<(Seq<char>, JVal)>::empty()));
    match d {
        None => {
            assert(jval_bounded(v)) by {
                assert(jfields_bounded(Seq::<(Seq<char>, JVal)>::empty()));
                assert(seq![("method"@, JVal::Str(m))].drop_first() =~= Seq::<(
                    Seq<char>,
                    JVal,
                )>::empty());
                assert(jval_bounded(JVal::Str(m)));
            }
            assert(envelope_of(v) == Some((m, d))) by {
                let fs = seq![("method"@, JVal::Str(m))];
                assert(obj_lookup(fs, "method"@) == Some(JVal::Str(m)));
                assert(fs.skip(1) =~= Seq::<(Seq<char>, JVal)>::empty());
                assert(obj_lookup(Seq::<(Seq<char>, JVal)>::empty(), "data"@) is None);
                assert(obj_lookup(fs, "data"@) is None);
            }
        },
        Some(pv) => {
            assert(jval_bounded(v)) by {
                assert(jfields_bounded(Seq::<(Seq<char>, JVal)>::empty()));
                let fs = seq![("method"@, JVal::Str(m)), ("data"@, pv)];
                assert(fs.drop_first() =~= seq![("data"@, pv)]);
                assert(seq![("data"@, pv)].drop_first() =~= Seq::<(Seq<char>, JVal)>::empty());
                assert(jval_bounded(JVal::Str(m)));
                assert(jfields_bounded(fs.drop_first()));
            }
            assert(envelope_of(v) == Some((m, d))) by {
                let fs = seq![("method"@, JVal::Str(m)), ("data"@, pv)];
                assert(fs.skip(1) =~= seq![("data"@, pv)]);
                assert(obj_lookup(fs, "method"@) == Some(JVal::Str(m)));
                assert(obj_lookup(seq![("data"@, pv)], "data"@) == Some(pv));
                assert(obj_lookup(fs, "data"@) == Some(pv));
            }
        },
    }
    lemma_parse_doc_ser(v);
    lemma_frame_round_trip(ser_jval(v));
}

/// The known remote methods.
#[derive(Debug, Clone, Copy, PartialEq, Eq, Structural)]
pub enum Method {
    ListViews,
    ListOutputs,
    ListWsets,
    ListInputDevices,
    GetConfiguration,
    GetConfigOption,
    GetOutputInfo,
    GetViewInfo,
    GetFocusedView,
}

impl Method {
    /// Name of the method on the wire.
    pub open spec fn spec_wire_name(self) -> Seq<char> {
        match self {
            Method::ListViews => "list-views"@,
            Method::ListOutputs => "list-outputs"@,
            Method::ListWsets => "list-wsets"@,
            Method::ListInputDevices => "list-input-devices"@,
            Method::GetConfiguration => "get-configuration"@,
            Method::GetConfigOption => "get-config-option"@,
            Method::GetOutputInfo => "get-output-info"@,
            Method::GetViewInfo => "get-view-info"@,
            Method::GetFocusedView => "get-focused-view"@,
        }
    }

    /// Whether the method's successful response wraps the payload in an
    /// `info` field that must be unwrapped before decoding.
    pub open spec fn spec_unwraps_info(self) -> bool {
        self == Method::GetViewInfo || self == Method::GetFocusedView
    }

    pub fn wire_name(&self) -> (r: String)
        ensures
            r@ == self.spec_wire_name(),
    {
        match self {
            Method::ListViews => "list-views".to_owned(),
            Method::ListOutputs => "list-outputs".to_owned(),
            Method::ListWsets => "list-wsets".to_owned(),
            Method::ListInputDevices => "list-input-devices".to_owned(),
            Method::GetConfiguration => "get-configuration".to_owned(),
            Method::GetConfigOption => "get-config-option".to_owned(),
            Method::GetOutputInfo => "get-output-info".to_owned(),
            Method::GetViewInfo => "get-view-info".to_owned(),
            Method::GetFocusedView => "get-focused-view".to_owned(),
        }
    }

    pub fn unwraps_info(&self) -> (r: bool)
        ensures
            r == self.spec_unwraps_info(),
    {
        match self {
            Method::GetViewInfo => true,
            Method::GetFocusedView => true,
            _ => false,
        }
    }
}

/// Envelope for a method that takes no parameters.
pub fn request_plain(method: Method) -> (r: MsgTemplate)
    ensures
        r.method@ == method.spec_wire_name(),
        r.data is None,
{
    MsgTemplate { method: method.wire_name(), data: None }
}

/// Envelope for `get-config-option`: parameters `{"option": <name>}`.
pub fn request_config_option(option: &str) -> (r: MsgTemplate)
    ensures
        r.method@ == Method::GetConfigOption.spec_wire_name(),
        r.data matches Some(d) && d@ == JVal::Obj(seq![("option"@, JVal::Str(option@))]),
{
    broadcast use lemma_jobj_of;

    let mut fields: Vec<(String, Json)> = Vec::new();
    fields.push(("option".to_owned(), Json::Str(option.to_owned())));
    let data = Json::Obj(fields);
    proof {
        lemma_jobj_of(fields@);
        assert(jval_of(data)->Obj_0 =~= seq![("option"@, JVal::Str(option@))]);
    }
    MsgTemplate { method: Method::GetConfigOption.wire_name(), data: Some(data) }
}

/// Envelope for a method keyed by an identifier: parameters `{"id": <id>}`.
pub fn request_by_id(method: Method, id: i64) -> (r: MsgTemplate)
    ensures
        r.method@ == method.spec_wire_name(),
        r.data matches Some(d) && d@ == JVal::Obj(seq![("id"@, JVal::Int(id as int))]),
{
    broadcast use lemma_jobj_of;

    let mut fields: Vec<(String, Json)> = Vec::new();
    fields.push(("id".to_owned(), Json::Int(id)));
    let data = Json::Obj(fields);
    proof {
        lemma_jobj_of(fields@);
        assert(jval_of(data)->Obj_0 =~= seq![("id"@, JVal::Int(id as int))]);
    }
    MsgTemplate { method: method.wire_name(), data: Some(data) }
}

} // verus!

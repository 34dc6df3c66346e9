//! The typed call layer: interpreting a response payload.
//!
//! Each function here is the pure half of one remote call: it takes the raw
//! response payload (the bytes of one deframed message), parses it, checks
//! it for a protocol-level error object, applies the method's unwrap rule
//! where one exists, and decodes the expected schema. The owning application
//! only moves bytes between the socket and these functions. A failed call
//! leaves no state behind: every function is a pure map from bytes to a
//! result, so later calls on the same connection are unaffected.

use vstd::prelude::*;
use crate::error::{DecodeFault, WayfireError};
use crate::json::{Json, JVal, jval_get};
use crate::parse::{parse_doc, parse_json};
use crate::records::{
    InputDevice, OptionValueResponse, Output, WayfireConfiguration, Window, WorkspaceSet,
    configuration_of, configuration_ok, decode_configuration, decode_input_devices,
    decode_option_value, decode_output, decode_outputs, decode_window, decode_windows,
    decode_wsets, input_devices_of, input_devices_ok, option_value_of, option_value_ok,
    output_of, output_ok, outputs_of, outputs_ok, window_of, window_ok, windows_of, windows_ok,
    wsets_of, wsets_ok,
};

verus! {

/// A response signals protocol-level failure exactly when it is an object
/// containing an `error` key.
pub open spec fn is_error_value(v: JVal) -> bool {
    jval_get(v, "error"@) is Some
}

/// Error discrimination: a value with an `error` key becomes `RemoteError`
/// carrying the whole payload unchanged, and is never decoded against a
/// schema; any other value passes through unchanged for schema decoding.
pub fn classify_response(j: Json) -> (r: Result<Json, WayfireError>)
    ensures
        is_error_value(j@) ==> r == Err::<Json, WayfireError>(WayfireError::Remote(j)),
        !is_error_value(j@) ==> r == Ok::<Json, WayfireError>(j),
{
    let has_error = match j.get("error") {
        Some(_) => true,
        None => false,
    };
    if has_error {
        Err(WayfireError::Remote(j))
    } else {
        Ok(j)
    }
}

/// Unwrap rule: extracts the `info` field some methods wrap their payload
/// in. A response without that field is a missing-field decode error; no
/// partially populated record can come out of it.
pub fn unwrap_info(j: &Json) -> (r: Result<&Json, WayfireError>)
    ensures
        r matches Ok(v) ==> jval_get(j@, "info"@) == Some(v@),
        r is Ok <==> jval_get(j@, "info"@) is Some,
        r matches Err(e) ==> e matches WayfireError::Decode(f) && f matches
            DecodeFault::MissingField(k) && k@ == "info"@,
{
    match j.get("info") {
        Some(v) => Ok(v),
        None => Err(WayfireError::Decode(DecodeFault::MissingField("info".to_owned()))),
    }
}

/// Interprets a `list-views` response payload.
pub fn windows_from_response(bytes: &[u8]) -> (r: Result<Vec<Window>, WayfireError>)
    ensures
        parse_doc(bytes@) is None ==> r == Err::<Vec<Window>, WayfireError>(
            WayfireError::Decode(DecodeFault::Syntax),
        ),
        parse_doc(bytes@) matches Some(v) ==> if is_error_value(v) {
            r matches Err(e) && e matches WayfireError::Remote(p) && p@ == v
        } else {
            (r is Ok <==> windows_ok(v)) && (r matches Ok(ws) ==> windows_of(v, ws@)) && (
            r matches Err(e) ==> e is Decode)
        },
{
    let parsed = parse_json(bytes)?;
    let value = classify_response(parsed)?;
    decode_windows(&value)
}

/// Interprets a `list-outputs` response payload.
pub fn outputs_from_response(bytes: &[u8]) -> (r: Result<Vec<Output>, WayfireError>)
    ensures
        parse_doc(bytes@) is None ==> r == Err::<Vec<Output>, WayfireError>(
            WayfireError::Decode(DecodeFault::Syntax),
        ),
        parse_doc(bytes@) matches Some(v) ==> if is_error_value(v) {
            r matches Err(e) && e matches WayfireError::Remote(p) && p@ == v
        } else {
            (r is Ok <==> outputs_ok(v)) && (r matches Ok(os) ==> outputs_of(v, os@)) && (
            r matches Err(e) ==> e is Decode)
        },
{
    let parsed = parse_json(bytes)?;
    let value = classify_response(parsed)?;
    decode_outputs(&value)
}

/// Interprets a `list-wsets` response payload.
pub fn wsets_from_response(bytes: &[u8]) -> (r: Result<Vec<WorkspaceSet>, WayfireError>)
    ensures
        parse_doc(bytes@) is None ==> r == Err::<Vec<WorkspaceSet>, WayfireError>(
            WayfireError::Decode(DecodeFault::Syntax),
        ),
        parse_doc(bytes@) matches Some(v) ==> if is_error_value(v) {
            r matches Err(e) && e matches WayfireError::Remote(p) && p@ == v
        } else {
            (r is Ok <==> wsets_ok(v)) && (r matches Ok(ss) ==> wsets_of(v, ss@)) && (
            r matches Err(e) ==> e is Decode)
        },
{
    let parsed = parse_json(bytes)?;
    let value = classify_response(parsed)?;
    decode_wsets(&value)
}

/// Interprets a `list-input-devices` response payload.
pub fn input_devices_from_response(bytes: &[u8]) -> (r: Result<Vec<InputDevice>, WayfireError>)
    ensures
        parse_doc(bytes@) is None ==> r == Err::<Vec<InputDevice>, WayfireError>(
            WayfireError::Decode(DecodeFault::Syntax),
        ),
        parse_doc(bytes@) matches Some(v) ==> if is_error_value(v) {
            r matches Err(e) && e matches WayfireError::Remote(p) && p@ == v
        } else {
            (r is Ok <==> input_devices_ok(v)) && (r matches Ok(ds) ==> input_devices_of(
                v,
                ds@,
            )) && (r matches Err(e) ==> e is Decode)
        },
{
    let parsed = parse_json(bytes)?;
    let value = classify_response(parsed)?;
    decode_input_devices(&value)
}

/// Interprets a `get-configuration` response payload.
pub fn configuration_from_response(bytes: &[u8]) -> (r: Result<
    WayfireConfiguration,
    WayfireError,
>)
    ensures
        parse_doc(bytes@) is None ==> r == Err::<WayfireConfiguration, WayfireError>(
            WayfireError::Decode(DecodeFault::Syntax),
        ),
        parse_doc(bytes@) matches Some(v) ==> if is_error_value(v) {
            r matches Err(e) && e matches WayfireError::Remote(p) && p@ == v
        } else {
            (r is Ok <==> configuration_ok(v)) && (r matches Ok(c) ==> configuration_of(v, c))
                && (r matches Err(e) ==> e is Decode)
        },
{
    let parsed = parse_json(bytes)?;
    let value = classify_response(parsed)?;
    decode_configuration(&value)
}

/// Interprets a `get-config-option` response payload.
pub fn option_value_from_response(bytes: &[u8]) -> (r: Result<OptionValueResponse, WayfireError>)
    ensures
        parse_doc(bytes@) is None ==> r == Err::<OptionValueResponse, WayfireError>(
            WayfireError::Decode(DecodeFault::Syntax),
        ),
        parse_doc(bytes@) matches Some(v) ==> if is_error_value(v) {
            r matches Err(e) && e matches WayfireError::Remote(p) && p@ == v
        } else {
            (r is Ok <==> option_value_ok(v)) && (r matches Ok(o) ==> option_value_of(v, o)) && (
            r matches Err(e) ==> e is Decode)
        },
{
    let parsed = parse_json(bytes)?;
    let value = classify_response(parsed)?;
    decode_option_value(&value)
}

/// Interprets a `get-output-info` response payload.
pub fn output_from_response(bytes: &[u8]) -> (r: Result<Output, WayfireError>)
    ensures
        parse_doc(bytes@) is None ==> r == Err::<Output, WayfireError>(
            WayfireError::Decode(DecodeFault::Syntax),
        ),
        parse_doc(bytes@) matches Some(v) ==> if is_error_value(v) {
            r matches Err(e) && e matches WayfireError::Remote(p) && p@ == v
        } else {
            (r is Ok <==> output_ok(v)) && (r matches Ok(o) ==> output_of(v, o)) && (
            r matches Err(e) ==> e is Decode)
        },
{
    let parsed = parse_json(bytes)?;
    let value = classify_response(parsed)?;
    decode_output(&value)
}

/// Interprets a `get-view-info` or `get-focused-view` response payload:
/// these methods wrap the window record in an `info` field, which must be
/// present, or the whole response is a missing-field decode error.
pub fn window_info_from_response(bytes: &[u8]) -> (r: Result<Window, WayfireError>)
    ensures
        parse_doc(bytes@) is None ==> r == Err::<Window, WayfireError>(
            WayfireError::Decode(DecodeFault::Syntax),
        ),
        parse_doc(bytes@) matches Some(v) ==> if is_error_value(v) {
            r matches Err(e) && e matches WayfireError::Remote(p) && p@ == v
        } else {
            match jval_get(v, "info"@) {
                Some(inner) => (r is Ok <==> window_ok(inner)) && (r matches Ok(w) ==> window_of(
                    inner,
                    w,
                )) && (r matches Err(e) ==> e is Decode),
                None => r matches Err(e) && e matches WayfireError::Decode(f) && f matches
                    DecodeFault::MissingField(k) && k@ == "info"@,
            }
        },
{
    let parsed = parse_json(bytes)?;
    let value = classify_response(parsed)?;
    let inner = unwrap_info(&value)?;
    decode_window(inner)
}

} // verus!

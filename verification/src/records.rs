//! The domain records: flat, externally-defined schemas decoded from
//! successful responses.
//!
//! Decoding is strict in the sense the protocol asks for: a missing required
//! field or a field of the wrong shape is an error naming that field, while
//! unknown extra fields are ignored. Wire field names that are not Rust
//! identifiers (hyphenated names, `type`) are mapped to identifier-safe
//! field names here; the wire name is what the decoder looks up.

use vstd::prelude::*;
use crate::error::{DecodeFault, WayfireError};
use crate::json::{Json, JVal, jval_get, jval_of, jvals_of, lemma_jvals_of, obj_lookup};

verus! {

/// A rectangle: position and size.
#[derive(Debug, PartialEq)]
pub struct Geometry {
    pub height: u64,
    pub width: u64,
    pub x: u64,
    pub y: u64,
}

/// A width/height pair.
#[derive(Debug, PartialEq)]
pub struct Size {
    pub height: u64,
    pub width: u64,
}

/// Position inside a workspace grid.
#[derive(Debug, PartialEq)]
pub struct Workspace {
    pub grid_height: u64,
    pub grid_width: u64,
    pub x: u64,
    pub y: u64,
}

/// One input device (wire field `type` maps to `type_field`).
#[derive(Debug, PartialEq)]
pub struct InputDevice {
    pub id: i64,
    pub name: String,
    pub type_field: String,
}

/// Answer to `get-config-option`.
#[derive(Debug, PartialEq)]
pub struct OptionValueResponse {
    pub default: String,
    pub result: String,
    pub value: String,
}

/// Answer to `get-configuration`.
#[derive(Debug, PartialEq)]
pub struct WayfireConfiguration {
    pub api_version: u32,
    pub build_branch: String,
    pub build_commit: String,
    pub plugin_path: String,
    pub plugin_xml_dir: String,
    pub xwayland_support: u32,
}

/// One window (the protocol calls it a view), as `list-views` and the
/// view queries return it.
#[derive(Debug, PartialEq)]
pub struct Window {
    pub activated: bool,
    pub app_id: String,
    pub base_geometry: Geometry,
    pub bbox: Geometry,
    pub focusable: bool,
    pub fullscreen: bool,
    pub geometry: Geometry,
    pub id: i64,
    pub last_focus_timestamp: i64,
    pub layer: String,
    pub mapped: bool,
    pub max_size: Size,
    pub min_size: Size,
    pub minimized: bool,
    pub output_id: i64,
    pub output_name: String,
    pub parent: i64,
    pub pid: i64,
    pub role: String,
    pub sticky: bool,
    pub tiled_edges: u64,
    pub title: String,
    pub type_field: String,
    pub wset_index: u128,
}

/// One output (monitor).
#[derive(Debug, PartialEq)]
pub struct Output {
    pub geometry: Geometry,
    pub id: i64,
    pub name: String,
    pub work_area: Geometry,
    pub workspace: Workspace,
    pub wset_index: u128,
}

/// One workspace set.
#[derive(Debug, PartialEq)]
pub struct WorkspaceSet {
    pub index: u64,
    pub name: String,
    pub output_id: i64,
    pub output_name: String,
    pub workspace: Workspace,
}

/// Integer under `key`, if the field exists and is a number.
pub open spec fn int_at(v: JVal, key: Seq<char>) -> Option<int> {
    match jval_get(v, key) {
        Some(w) => match w {
            JVal::Int(n) => Some(n),
            _ => None,
        },
        None => None,
    }
}

/// Non-negative integer under `key`.
pub open spec fn u64_at(v: JVal, key: Seq<char>) -> Option<int> {
    match int_at(v, key) {
        Some(n) => if 0 <= n {
            Some(n)
        } else {
            None
        },
        None => None,
    }
}

/// Unsigned 32-bit integer under `key`.
pub open spec fn u32_at(v: JVal, key: Seq<char>) -> Option<int> {
    match int_at(v, key) {
        Some(n) => if 0 <= n <= u32::MAX {
            Some(n)
        } else {
            None
        },
        None => None,
    }
}

/// String under `key`.
pub open spec fn str_at(v: JVal, key: Seq<char>) -> Option<Seq<char>> {
    match jval_get(v, key) {
        Some(w) => match w {
            JVal::Str(s) => Some(s),
            _ => None,
        },
        None => None,
    }
}

/// Boolean under `key`.
pub open spec fn bool_at(v: JVal, key: Seq<char>) -> Option<bool> {
    match jval_get(v, key) {
        Some(w) => match w {
            JVal::Bool(b) => Some(b),
            _ => None,
        },
        None => None,
    }
}

fn req_i64(j: &Json, key: &str) -> (r: Result<i64, WayfireError>)
    ensures
        r matches Ok(n) ==> int_at(j@, key@) == Some(n as int),
        r is Ok <==> int_at(j@, key@) is Some,
        r matches Err(e) ==> e is Decode,
{
    match j.get(key) {
        Some(v) => match v {
            Json::Int(n) => Ok(*n),
            _ => Err(WayfireError::Decode(DecodeFault::WrongType(key.to_owned()))),
        },
        None => Err(WayfireError::Decode(DecodeFault::MissingField(key.to_owned()))),
    }
}

fn req_u64(j: &Json, key: &str) -> (r: Result<u64, WayfireError>)
    ensures
        r matches Ok(n) ==> u64_at(j@, key@) == Some(n as int),
        r is Ok <==> u64_at(j@, key@) is Some,
        r matches Err(e) ==> e is Decode,
{
    match req_i64(j, key) {
        Ok(n) => {
            if n >= 0 {
                Ok(n as u64)
            } else {
                Err(WayfireError::Decode(DecodeFault::WrongType(key.to_owned())))
            }
        },
        Err(e) => Err(e),
    }
}

fn req_u32(j: &Json, key: &str) -> (r: Result<u32, WayfireError>)
    ensures
        r matches Ok(n) ==> u32_at(j@, key@) == Some(n as int),
        r is Ok <==> u32_at(j@, key@) is Some,
        r matches Err(e) ==> e is Decode,
{
    match req_i64(j, key) {
        Ok(n) => {
            if n >= 0 && n <= u32::MAX as i64 {
                Ok(n as u32)
            } else {
                Err(WayfireError::Decode(DecodeFault::WrongType(key.to_owned())))
            }
        },
        Err(e) => Err(e),
    }
}

fn req_u128(j: &Json, key: &str) -> (r: Result<u128, WayfireError>)
    ensures
        r matches Ok(n) ==> u64_at(j@, key@) == Some(n as int),
        r is Ok <==> u64_at(j@, key@) is Some,
        r matches Err(e) ==> e is Decode,
{
    match req_u64(j, key) {
        Ok(n) => Ok(n as u128),
        Err(e) => Err(e),
    }
}

fn req_bool(j: &Json, key: &str) -> (r: Result<bool, WayfireError>)
    ensures
        r matches Ok(b) ==> bool_at(j@, key@) == Some(b),
        r is Ok <==> bool_at(j@, key@) is Some,
        r matches Err(e) ==> e is Decode,
{
    match j.get(key) {
        Some(v) => match v {
            Json::Bool(b) => Ok(*b),
            _ => Err(WayfireError::Decode(DecodeFault::WrongType(key.to_owned()))),
        },
        None => Err(WayfireError::Decode(DecodeFault::MissingField(key.to_owned()))),
    }
}

fn req_string(j: &Json, key: &str) -> (r: Result<String, WayfireError>)
    ensures
        r matches Ok(s) ==> str_at(j@, key@) == Some(s@),
        r is Ok <==> str_at(j@, key@) is Some,
        r matches Err(e) ==> e is Decode,
{
    match j.get(key) {
        Some(v) => match v {
            Json::Str(s) => Ok(s.clone()),
            _ => Err(WayfireError::Decode(DecodeFault::WrongType(key.to_owned()))),
        },
        None => Err(WayfireError::Decode(DecodeFault::MissingField(key.to_owned()))),
    }
}

/// The value has every field a `Geometry` needs.
pub open spec fn geometry_ok(v: JVal) -> bool {
    &&& u64_at(v, "height"@) is Some
    &&& u64_at(v, "width"@) is Some
    &&& u64_at(v, "x"@) is Some
    &&& u64_at(v, "y"@) is Some
}

/// `g` holds exactly the value's geometry fields.
pub open spec fn geometry_of(v: JVal, g: Geometry) -> bool {
    &&& u64_at(v, "height"@) == Some(g.height as int)
    &&& u64_at(v, "width"@) == Some(g.width as int)
    &&& u64_at(v, "x"@) == Some(g.x as int)
    &&& u64_at(v, "y"@) == Some(g.y as int)
}

/// Strict decode of a `Geometry`; fails naming the first offending field.
pub fn decode_geometry(j: &Json) -> (r: Result<Geometry, WayfireError>)
    ensures
        r matches Ok(g) ==> geometry_of(j@, g),
        r is Ok <==> geometry_ok(j@),
        r matches Err(e) ==> e is Decode,
{
    let height = req_u64(j, "height")?;
    let width = req_u64(j, "width")?;
    let x = req_u64(j, "x")?;
    let y = req_u64(j, "y")?;
    Ok(Geometry { height, width, x, y })
}

pub open spec fn size_ok(v: JVal) -> bool {
    &&& u64_at(v, "height"@) is Some
    &&& u64_at(v, "width"@) is Some
}

pub open spec fn size_of_val(v: JVal, s: Size) -> bool {
    &&& u64_at(v, "height"@) == Some(s.height as int)
    &&& u64_at(v, "width"@) == Some(s.width as int)
}

/// Strict decode of a `Size`.
pub fn decode_size(j: &Json) -> (r: Result<Size, WayfireError>)
    ensures
        r matches Ok(s) ==> size_of_val(j@, s),
        r is Ok <==> size_ok(j@),
        r matches Err(e) ==> e is Decode,
{
    let height = req_u64(j, "height")?;
    let width = req_u64(j, "width")?;
    Ok(Size { height, width })
}

pub open spec fn workspace_ok(v: JVal) -> bool {
    &&& u64_at(v, "grid_height"@) is Some
    &&& u64_at(v, "grid_width"@) is Some
    &&& u64_at(v, "x"@) is Some
    &&& u64_at(v, "y"@) is Some
}

pub open spec fn workspace_of(v: JVal, w: Workspace) -> bool {
    &&& u64_at(v, "grid_height"@) == Some(w.grid_height as int)
    &&& u64_at(v, "grid_width"@) == Some(w.grid_width as int)
    &&& u64_at(v, "x"@) == Some(w.x as int)
    &&& u64_at(v, "y"@) == Some(w.y as int)
}

/// Strict decode of a `Workspace`.
pub fn decode_workspace(j: &Json) -> (r: Result<Workspace, WayfireError>)
    ensures
        r matches Ok(w) ==> workspace_of(j@, w),
        r is Ok <==> workspace_ok(j@),
        r matches Err(e) ==> e is Decode,
{
    let grid_height = req_u64(j, "grid_height")?;
    let grid_width = req_u64(j, "grid_width")?;
    let x = req_u64(j, "x")?;
    let y = req_u64(j, "y")?;
    Ok(Workspace { grid_height, grid_width, x, y })
}

fn req_field<'a>(j: &'a Json, key: &str) -> (r: Result<&'a Json, WayfireError>)
    ensures
        r matches Ok(v) ==> jval_get(j@, key@) == Some(v@),
        r is Ok <==> jval_get(j@, key@) is Some,
        r matches Err(e) ==> e is Decode,
{
    match j.get(key) {
        Some(v) => Ok(v),
        None => Err(WayfireError::Decode(DecodeFault::MissingField(key.to_owned()))),
    }
}

pub open spec fn input_device_ok(v: JVal) -> bool {
    &&& int_at(v, "id"@) is Some
    &&& str_at(v, "name"@) is Some
    &&& str_at(v, "type"@) is Some
}

pub open spec fn input_device_of(v: JVal, d: InputDevice) -> bool {
    &&& int_at(v, "id"@) == Some(d.id as int)
    &&& str_at(v, "name"@) == Some(d.name@)
    &&& str_at(v, "type"@) == Some(d.type_field@)
}

/// Strict decode of an `InputDevice`.
pub fn decode_input_device(j: &Json) -> (r: Result<InputDevice, WayfireError>)
    ensures
        r matches Ok(d) ==> input_device_of(j@, d),
        r is Ok <==> input_device_ok(j@),
        r matches Err(e) ==> e is Decode,
{
    let id = req_i64(j, "id")?;
    let name = req_string(j, "name")?;
    let type_field = req_string(j, "type")?;
    Ok(InputDevice { id, name, type_field })
}

pub open spec fn option_value_ok(v: JVal) -> bool {
    &&& str_at(v, "default"@) is Some
    &&& str_at(v, "result"@) is Some
    &&& str_at(v, "value"@) is Some
}

pub open spec fn option_value_of(v: JVal, o: OptionValueResponse) -> bool {
    &&& str_at(v, "default"@) == Some(o.default@)
    &&& str_at(v, "result"@) == Some(o.result@)
    &&& str_at(v, "value"@) == Some(o.value@)
}

/// Strict decode of an `OptionValueResponse`.
pub fn decode_option_value(j: &Json) -> (r: Result<OptionValueResponse, WayfireError>)
    ensures
        r matches Ok(o) ==> option_value_of(j@, o),
        r is Ok <==> option_value_ok(j@),
        r matches Err(e) ==> e is Decode,
{
    let default = req_string(j, "default")?;
    let result = req_string(j, "result")?;
    let value = req_string(j, "value")?;
    Ok(OptionValueResponse { default, result, value })
}

pub open spec fn configuration_ok(v: JVal) -> bool {
    &&& u32_at(v, "api-version"@) is Some
    &&& str_at(v, "build-branch"@) is Some
    &&& str_at(v, "build-commit"@) is Some
    &&& str_at(v, "plugin-path"@) is Some
    &&& str_at(v, "plugin-xml-dir"@) is Some
    &&& u32_at(v, "xwayland-support"@) is Some
}

pub open spec fn configuration_of(v: JVal, c: WayfireConfiguration) -> bool {
    &&& u32_at(v, "api-version"@) == Some(c.api_version as int)
    &&& str_at(v, "build-branch"@) == Some(c.build_branch@)
    &&& str_at(v, "build-commit"@) == Some(c.build_commit@)
    &&& str_at(v, "plugin-path"@) == Some(c.plugin_path@)
    &&& str_at(v, "plugin-xml-dir"@) == Some(c.plugin_xml_dir@)
    &&& u32_at(v, "xwayland-support"@) == Some(c.xwayland_support as int)
}

/// Strict decode of a `WayfireConfiguration`.
pub fn decode_configuration(j: &Json) -> (r: Result<WayfireConfiguration, WayfireError>)
    ensures
        r matches Ok(c) ==> configuration_of(j@, c),
        r is Ok <==> configuration_ok(j@),
        r matches Err(e) ==> e is Decode,
{
    let api_version = req_u32(j, "api-version")?;
    let build_branch = req_string(j, "build-branch")?;
    let build_commit = req_string(j, "build-commit")?;
    let plugin_path = req_string(j, "plugin-path")?;
    let plugin_xml_dir = req_string(j, "plugin-xml-dir")?;
    let xwayland_support = req_u32(j, "xwayland-support")?;
    Ok(WayfireConfiguration {
        api_version,
        build_branch,
        build_commit,
        plugin_path,
        plugin_xml_dir,
        xwayland_support,
    })
}

pub open spec fn window_ok(v: JVal) -> bool {
    &&& bool_at(v, "activated"@) is Some
    &&& str_at(v, "app-id"@) is Some
    &&& (jval_get(v, "base-geometry"@) matches Some(g) && geometry_ok(g))
    &&& (jval_get(v, "bbox"@) matches Some(g) && geometry_ok(g))
    &&& bool_at(v, "focusable"@) is Some
    &&& bool_at(v, "fullscreen"@) is Some
    &&& (jval_get(v, "geometry"@) matches Some(g) && geometry_ok(g))
    &&& int_at(v, "id"@) is Some
    &&& int_at(v, "last-focus-timestamp"@) is Some
    &&& str_at(v, "layer"@) is Some
    &&& bool_at(v, "mapped"@) is Some
    &&& (jval_get(v, "max-size"@) matches Some(s) && size_ok(s))
    &&& (jval_get(v, "min-size"@) matches Some(s) && size_ok(s))
    &&& bool_at(v, "minimized"@) is Some
    &&& int_at(v, "output-id"@) is Some
    &&& str_at(v, "output-name"@) is Some
    &&& int_at(v, "parent"@) is Some
    &&& int_at(v, "pid"@) is Some
    &&& str_at(v, "role"@) is Some
    &&& bool_at(v, "sticky"@) is Some
    &&& u64_at(v, "tiled-edges"@) is Some
    &&& str_at(v, "title"@) is Some
    &&& str_at(v, "type"@) is Some
    &&& u64_at(v, "wset-index"@) is Some
}

pub open spec fn window_of(v: JVal, w: Window) -> bool {
    &&& bool_at(v, "activated"@) == Some(w.activated)
    &&& str_at(v, "app-id"@) == Some(w.app_id@)
    &&& (jval_get(v, "base-geometry"@) matches Some(g) && geometry_of(g, w.base_geometry))
    &&& (jval_get(v, "bbox"@) matches Some(g) && geometry_of(g, w.bbox))
    &&& bool_at(v, "focusable"@) == Some(w.focusable)
    &&& bool_at(v, "fullscreen"@) == Some(w.fullscreen)
    &&& (jval_get(v, "geometry"@) matches Some(g) && geometry_of(g, w.geometry))
    &&& int_at(v, "id"@) == Some(w.id as int)
    &&& int_at(v, "last-focus-timestamp"@) == Some(w.last_focus_timestamp as int)
    &&& str_at(v, "layer"@) == Some(w.layer@)
    &&& bool_at(v, "mapped"@) == Some(w.mapped)
    &&& (jval_get(v, "max-size"@) matches Some(s) && size_of_val(s, w.max_size))
    &&& (jval_get(v, "min-size"@) matches Some(s) && size_of_val(s, w.min_size))
    &&& bool_at(v, "minimized"@) == Some(w.minimized)
    &&& int_at(v, "output-id"@) == Some(w.output_id as int)
    &&& str_at(v, "output-name"@) == Some(w.output_name@)
    &&& int_at(v, "parent"@) == Some(w.parent as int)
    &&& int_at(v, "pid"@) == Some(w.pid as int)
    &&& str_at(v, "role"@) == Some(w.role@)
    &&& bool_at(v, "sticky"@) == Some(w.sticky)
    &&& u64_at(v, "tiled-edges"@) == Some(w.tiled_edges as int)
    &&& str_at(v, "title"@) == Some(w.title@)
    &&& str_at(v, "type"@) == Some(w.type_field@)
    &&& u64_at(v, "wset-index"@) == Some(w.wset_index as int)
}

/// Strict decode of a `Window`: every schema field must be present with the
/// right shape (the `id` among them), unknown extra fields are ignored.
pub fn decode_window(j: &Json) -> (r: Result<Window, WayfireError>)
    ensures
        r matches Ok(w) ==> window_of(j@, w),
        r is Ok <==> window_ok(j@),
        r matches Err(e) ==> e is Decode,
{
    let activated = req_bool(j, "activated")?;
    let app_id = req_string(j, "app-id")?;
    let base_geometry = decode_geometry(req_field(j, "base-geometry")?)?;
    let bbox = decode_geometry(req_field(j, "bbox")?)?;
    let focusable = req_bool(j, "focusable")?;
    let fullscreen = req_bool(j, "fullscreen")?;
    let geometry = decode_geometry(req_field(j, "geometry")?)?;
    let id = req_i64(j, "id")?;
    let last_focus_timestamp = req_i64(j, "last-focus-timestamp")?;
    let layer = req_string(j, "layer")?;
    let mapped = req_bool(j, "mapped")?;
    let max_size = decode_size(req_field(j, "max-size")?)?;
    let min_size = decode_size(req_field(j, "min-size")?)?;
    let minimized = req_bool(j, "minimized")?;
    let output_id = req_i64(j, "output-id")?;
    let output_name = req_string(j, "output-name")?;
    let parent = req_i64(j, "parent")?;
    let pid = req_i64(j, "pid")?;
    let role = req_string(j, "role")?;
    let sticky = req_bool(j, "sticky")?;
    let tiled_edges = req_u64(j, "tiled-edges")?;
    let title = req_string(j, "title")?;
    let type_field = req_string(j, "type")?;
    let wset_index = req_u128(j, "wset-index")?;
    Ok(Window {
        activated,
        app_id,
        base_geometry,
        bbox,
        focusable,
        fullscreen,
        geometry,
        id,
        last_focus_timestamp,
        layer,
        mapped,
        max_size,
        min_size,
        minimized,
        output_id,
        output_name,
        parent,
        pid,
        role,
        sticky,
        tiled_edges,
        title,
        type_field,
        wset_index,
    })
}

pub open spec fn output_ok(v: JVal) -> bool {
    &&& (jval_get(v, "geometry"@) matches Some(g) && geometry_ok(g))
    &&& int_at(v, "id"@) is Some
    &&& str_at(v, "name"@) is Some
    &&& (jval_get(v, "workarea"@) matches Some(g) && geometry_ok(g))
    &&& (jval_get(v, "workspace"@) matches Some(w) && workspace_ok(w))
    &&& u64_at(v, "wset-index"@) is Some
}

pub open spec fn output_of(v: JVal, o: Output) -> bool {
    &&& (jval_get(v, "geometry"@) matches Some(g) && geometry_of(g, o.geometry))
    &&& int_at(v, "id"@) == Some(o.id as int)
    &&& str_at(v, "name"@) == Some(o.name@)
    &&& (jval_get(v, "workarea"@) matches Some(g) && geometry_of(g, o.work_area))
    &&& (jval_get(v, "workspace"@) matches Some(w) && workspace_of(w, o.workspace))
    &&& u64_at(v, "wset-index"@) == Some(o.wset_index as int)
}

/// Strict decode of an `Output` (wire field `workarea` maps to `work_area`).
pub fn decode_output(j: &Json) -> (r: Result<Output, WayfireError>)
    ensures
        r matches Ok(o) ==> output_of(j@, o),
        r is Ok <==> output_ok(j@),
        r matches Err(e) ==> e is Decode,
{
    let geometry = decode_geometry(req_field(j, "geometry")?)?;
    let id = req_i64(j, "id")?;
    let name = req_string(j, "name")?;
    let work_area = decode_geometry(req_field(j, "workarea")?)?;
    let workspace = decode_workspace(req_field(j, "workspace")?)?;
    let wset_index = req_u128(j, "wset-index")?;
    Ok(Output { geometry, id, name, work_area, workspace, wset_index })
}

pub open spec fn wset_ok(v: JVal) -> bool {
    &&& u64_at(v, "index"@) is Some
    &&& str_at(v, "name"@) is Some
    &&& int_at(v, "output-id"@) is Some
    &&& str_at(v, "output-name"@) is Some
    &&& (jval_get(v, "workspace"@) matches Some(w) && workspace_ok(w))
}

pub open spec fn wset_of(v: JVal, s: WorkspaceSet) -> bool {
    &&& u64_at(v, "index"@) == Some(s.index as int)
    &&& str_at(v, "name"@) == Some(s.name@)
    &&& int_at(v, "output-id"@) == Some(s.output_id as int)
    &&& str_at(v, "output-name"@) == Some(s.output_name@)
    &&& (jval_get(v, "workspace"@) matches Some(w) && workspace_of(w, s.workspace))
}

/// Strict decode of a `WorkspaceSet`.
pub fn decode_wset(j: &Json) -> (r: Result<WorkspaceSet, WayfireError>)
    ensures
        r matches Ok(s) ==> wset_of(j@, s),
        r is Ok <==> wset_ok(j@),
        r matches Err(e) ==> e is Decode,
{
    let index = req_u64(j, "index")?;
    let name = req_string(j, "name")?;
    let output_id = req_i64(j, "output-id")?;
    let output_name = req_string(j, "output-name")?;
    let workspace = decode_workspace(req_field(j, "workspace")?)?;
    Ok(WorkspaceSet { index, name, output_id, output_name, workspace })
}

pub open spec fn windows_ok(v: JVal) -> bool {
    &&& v is Arr
    &&& forall|k: int| 0 <= k < v->Arr_0.len() ==> window_ok(#[trigger] v->Arr_0[k])
}

pub open spec fn windows_of(v: JVal, out: Seq<Window>) -> bool {
    &&& v is Arr
    &&& v->Arr_0.len() == out.len()
    &&& forall|k: int| 0 <= k < out.len() ==> window_of(v->Arr_0[k], #[trigger] out[k])
}

/// Strict decode of an ordered sequence of `Window` records.
pub fn decode_windows(j: &Json) -> (r: Result<Vec<Window>, WayfireError>)
    ensures
        r matches Ok(ws) ==> windows_of(j@, ws@),
        r is Ok <==> windows_ok(j@),
        r matches Err(e) ==> e is Decode,
{
    broadcast use lemma_jvals_of;

    match j {
        Json::Arr(items) => {
            let mut out: Vec<Window> = Vec::new();
            let n = items.len();
            for i in 0..n
                invariant
                    n == items@.len(),
                    out@.len() == i,
                    j@ == JVal::Arr(jvals_of(items@)),
                    forall|k: int| 0 <= k < i ==> window_of(
                        jvals_of(items@)[k],
                        #[trigger] out@[k],
                    ),
            {
                match decode_window(&items[i]) {
                    Ok(w) => {
                        proof {
                            lemma_jvals_of(items@);
                        }
                        out.push(w);
                    },
                    Err(e) => {
                        proof {
                            lemma_jvals_of(items@);
                            assert(j@->Arr_0[i as int] == jval_of(items@[i as int]));
                            assert(!window_ok(j@->Arr_0[i as int]));
                        }
                        return Err(e);
                    },
                }
            }
            proof {
                lemma_jvals_of(items@);
                assert forall|k: int| 0 <= k < n implies window_ok(#[trigger] j@->Arr_0[k]) by {
                    assert(window_of(jvals_of(items@)[k], out@[k]));
                }
            }
            Ok(out)
        },
        _ => Err(WayfireError::Decode(DecodeFault::WrongType("sequence".to_owned()))),
    }
}

pub open spec fn outputs_ok(v: JVal) -> bool {
    &&& v is Arr
    &&& forall|k: int| 0 <= k < v->Arr_0.len() ==> output_ok(#[trigger] v->Arr_0[k])
}

pub open spec fn outputs_of(v: JVal, out: Seq<Output>) -> bool {
    &&& v is Arr
    &&& v->Arr_0.len() == out.len()
    &&& forall|k: int| 0 <= k < out.len() ==> output_of(v->Arr_0[k], #[trigger] out[k])
}

/// Strict decode of an ordered sequence of `Output` records.
pub fn decode_outputs(j: &Json) -> (r: Result<Vec<Output>, WayfireError>)
    ensures
        r matches Ok(os) ==> outputs_of(j@, os@),
        r is Ok <==> outputs_ok(j@),
        r matches Err(e) ==> e is Decode,
{
    broadcast use lemma_jvals_of;

    match j {
        Json::Arr(items) => {
            let mut out: Vec<Output> = Vec::new();
            let n = items.len();
            for i in 0..n
                invariant
                    n == items@.len(),
                    out@.len() == i,
                    j@ == JVal::Arr(jvals_of(items@)),
                    forall|k: int| 0 <= k < i ==> output_of(
                        jvals_of(items@)[k],
                        #[trigger] out@[k],
                    ),
            {
                match decode_output(&items[i]) {
                    Ok(o) => {
                        proof {
                            lemma_jvals_of(items@);
                        }
                        out.push(o);
                    },
                    Err(e) => {
                        proof {
                            lemma_jvals_of(items@);
                            assert(j@->Arr_0[i as int] == jval_of(items@[i as int]));
                            assert(!output_ok(j@->Arr_0[i as int]));
                        }
                        return Err(e);
                    },
                }
            }
            proof {
                lemma_jvals_of(items@);
                assert forall|k: int| 0 <= k < n implies output_ok(#[trigger] j@->Arr_0[k]) by {
                    assert(output_of(jvals_of(items@)[k], out@[k]));
                }
            }
            Ok(out)
        },
        _ => Err(WayfireError::Decode(DecodeFault::WrongType("sequence".to_owned()))),
    }
}

pub open spec fn wsets_ok(v: JVal) -> bool {
    &&& v is Arr
    &&& forall|k: int| 0 <= k < v->Arr_0.len() ==> wset_ok(#[trigger] v->Arr_0[k])
}

pub open spec fn wsets_of(v: JVal, out: Seq<WorkspaceSet>) -> bool {
    &&& v is Arr
    &&& v->Arr_0.len() == out.len()
    &&& forall|k: int| 0 <= k < out.len() ==> wset_of(v->Arr_0[k], #[trigger] out[k])
}

/// Strict decode of an ordered sequence of `WorkspaceSet` records.
pub fn decode_wsets(j: &Json) -> (r: Result<Vec<WorkspaceSet>, WayfireError>)
    ensures
        r matches Ok(ss) ==> wsets_of(j@, ss@),
        r is Ok <==> wsets_ok(j@),
        r matches Err(e) ==> e is Decode,
{
    broadcast use lemma_jvals_of;

    match j {
        Json::Arr(items) => {
            let mut out: Vec<WorkspaceSet> = Vec::new();
            let n = items.len();
            for i in 0..n
                invariant
                    n == items@.len(),
                    out@.len() == i,
                    j@ == JVal::Arr(jvals_of(items@)),
                    forall|k: int| 0 <= k < i ==> wset_of(jvals_of(items@)[k], #[trigger] out@[k]),
            {
                match decode_wset(&items[i]) {
                    Ok(s) => {
                        proof {
                            lemma_jvals_of(items@);
                        }
                        out.push(s);
                    },
                    Err(e) => {
                        proof {
                            lemma_jvals_of(items@);
                            assert(j@->Arr_0[i as int] == jval_of(items@[i as int]));
                            assert(!wset_ok(j@->Arr_0[i as int]));
                        }
                        return Err(e);
                    },
                }
            }
            proof {
                lemma_jvals_of(items@);
                assert forall|k: int| 0 <= k < n implies wset_ok(#[trigger] j@->Arr_0[k]) by {
                    assert(wset_of(jvals_of(items@)[k], out@[k]));
                }
            }
            Ok(out)
        },
        _ => Err(WayfireError::Decode(DecodeFault::WrongType("sequence".to_owned()))),
    }
}

pub open spec fn input_devices_ok(v: JVal) -> bool {
    &&& v is Arr
    &&& forall|k: int| 0 <= k < v->Arr_0.len() ==> input_device_ok(#[trigger] v->Arr_0[k])
}

pub open spec fn input_devices_of(v: JVal, out: Seq<InputDevice>) -> bool {
    &&& v is Arr
    &&& v->Arr_0.len() == out.len()
    &&& forall|k: int| 0 <= k < out.len() ==> input_device_of(v->Arr_0[k], #[trigger] out[k])
}

/// Strict decode of an ordered sequence of `InputDevice` records.
pub fn decode_input_devices(j: &Json) -> (r: Result<Vec<InputDevice>, WayfireError>)
    ensures
        r matches Ok(ds) ==> input_devices_of(j@, ds@),
        r is Ok <==> input_devices_ok(j@),
        r matches Err(e) ==> e is Decode,
{
    broadcast use lemma_jvals_of;

    match j {
        Json::Arr(items) => {
            let mut out: Vec<InputDevice> = Vec::new();
            let n = items.len();
            for i in 0..n
                invariant
                    n == items@.len(),
                    out@.len() == i,
                    j@ == JVal::Arr(jvals_of(items@)),
                    forall|k: int| 0 <= k < i ==> input_device_of(
                        jvals_of(items@)[k],
                        #[trigger] out@[k],
                    ),
            {
                match decode_input_device(&items[i]) {
                    Ok(d) => {
                        proof {
                            lemma_jvals_of(items@);
                        }
                        out.push(d);
                    },
                    Err(e) => {
                        proof {
                            lemma_jvals_of(items@);
                            assert(j@->Arr_0[i as int] == jval_of(items@[i as int]));
                            assert(!input_device_ok(j@->Arr_0[i as int]));
                        }
                        return Err(e);
                    },
                }
            }
            proof {
                lemma_jvals_of(items@);
                assert forall|k: int| 0 <= k < n implies input_device_ok(#[trigger] j@->Arr_0[k]) by {
                    assert(input_device_of(jvals_of(items@)[k], out@[k]));
                }
            }
            Ok(out)
        },
        _ => Err(WayfireError::Decode(DecodeFault::WrongType("sequence".to_owned()))),
    }
}

/// The client-side filter keeps a window when its role is `toplevel` and it
/// is mapped.
pub open spec fn toplevel_mapped(w: Window) -> bool {
    w.role@ == "toplevel"@ && w.mapped
}

/// The windows of `s` that pass the filter, in their original order.
pub open spec fn filter_windows(s: Seq<Window>) -> Seq<Window>
    decreases s.len(),
{
    if s.len() == 0 {
        Seq::empty()
    } else if toplevel_mapped(s[0]) {
        seq![s[0]] + filter_windows(s.drop_first())
    } else {
        filter_windows(s.drop_first())
    }
}

/// Client-side filter for `list-views`: the result holds exactly the windows
/// with role `toplevel` and `mapped` set, preserving their relative order.
pub fn filter_toplevel_mapped(windows: Vec<Window>) -> (r: Vec<Window>)
    ensures
        r@ == filter_windows(windows@),
{
    let ghost orig = windows@;
    let toplevel = "toplevel".to_owned();
    let mut rest = windows;
    let mut out: Vec<Window> = Vec::new();
    proof {
        assert(out@ + filter_windows(rest@) =~= filter_windows(orig));
    }
    while rest.len() > 0
        invariant
            toplevel@ == "toplevel"@,
            out@ + filter_windows(rest@) == filter_windows(orig),
        decreases rest@.len(),
    {
        let keep = rest[0].role == toplevel && rest[0].mapped;
        let ghost before = rest@;
        let w = rest.remove(0);
        proof {
            assert(rest@ =~= before.drop_first());
            if keep {
                assert(out@ + (seq![w] + filter_windows(rest@)) =~= out@.push(w)
                    + filter_windows(rest@));
            }
        }
        if keep {
            out.push(w);
        }
    }
    proof {
        assert(filter_windows(rest@) =~= Seq::<Window>::empty());
        assert(out@ + Seq::<Window>::empty() =~= out@);
    }
    out
}


/// A binding under a fresh key leaves every other lookup unchanged.
pub proof fn lemma_lookup_ignores_unknown(
    fields: Seq<(Seq<char>, JVal)>,
    extra: (Seq<char>, JVal),
    key: Seq<char>,
)
    requires
        extra.0 != key,
    ensures
        obj_lookup(fields.push(extra), key) == obj_lookup(fields, key),
    decreases fields.len(),
{
    if fields.len() == 0 {
        assert(fields.push(extra)[0] == extra);
        assert(fields.push(extra).skip(1) =~= Seq::<(Seq<char>, JVal)>::empty());
        assert(obj_lookup(Seq::<(Seq<char>, JVal)>::empty(), key) is None);
    } else {
        assert(fields.push(extra)[0] == fields[0]);
        assert(fields.push(extra).skip(1) =~= fields.skip(1).push(extra));
        lemma_lookup_ignores_unknown(fields.skip(1), extra, key);
    }
}

/// Schema strictness, the tolerant half: an extra field under a key the
/// window schema does not name changes neither whether the object decodes
/// nor what it decodes to.
pub proof fn lemma_window_ignores_unknown_field(
    fields: Seq<(Seq<char>, JVal)>,
    extra: (Seq<char>, JVal),
    w: Window,
)
    requires
        extra.0 != "activated"@,
        extra.0 != "app-id"@,
        extra.0 != "base-geometry"@,
        extra.0 != "bbox"@,
        extra.0 != "focusable"@,
        extra.0 != "fullscreen"@,
        extra.0 != "geometry"@,
        extra.0 != "id"@,
        extra.0 != "last-focus-timestamp"@,
        extra.0 != "layer"@,
        extra.0 != "mapped"@,
        extra.0 != "max-size"@,
        extra.0 != "min-size"@,
        extra.0 != "minimized"@,
        extra.0 != "output-id"@,
        extra.0 != "output-name"@,
        extra.0 != "parent"@,
        extra.0 != "pid"@,
        extra.0 != "role"@,
        extra.0 != "sticky"@,
        extra.0 != "tiled-edges"@,
        extra.0 != "title"@,
        extra.0 != "type"@,
        extra.0 != "wset-index"@,
    ensures
        window_ok(JVal::Obj(fields.push(extra))) == window_ok(JVal::Obj(fields)),
        window_of(JVal::Obj(fields.push(extra)), w) == window_of(JVal::Obj(fields), w),
{
    lemma_lookup_ignores_unknown(fields, extra, "activated"@);
    lemma_lookup_ignores_unknown(fields, extra, "app-id"@);
    lemma_lookup_ignores_unknown(fields, extra, "base-geometry"@);
    lemma_lookup_ignores_unknown(fields, extra, "bbox"@);
    lemma_lookup_ignores_unknown(fields, extra, "focusable"@);
    lemma_lookup_ignores_unknown(fields, extra, "fullscreen"@);
    lemma_lookup_ignores_unknown(fields, extra, "geometry"@);
    lemma_lookup_ignores_unknown(fields, extra, "id"@);
    lemma_lookup_ignores_unknown(fields, extra, "last-focus-timestamp"@);
    lemma_lookup_ignores_unknown(fields, extra, "layer"@);
    lemma_lookup_ignores_unknown(fields, extra, "mapped"@);
    lemma_lookup_ignores_unknown(fields, extra, "max-size"@);
    lemma_lookup_ignores_unknown(fields, extra, "min-size"@);
    lemma_lookup_ignores_unknown(fields, extra, "minimized"@);
    lemma_lookup_ignores_unknown(fields, extra, "output-id"@);
    lemma_lookup_ignores_unknown(fields, extra, "output-name"@);
    lemma_lookup_ignores_unknown(fields, extra, "parent"@);
    lemma_lookup_ignores_unknown(fields, extra, "pid"@);
    lemma_lookup_ignores_unknown(fields, extra, "role"@);
    lemma_lookup_ignores_unknown(fields, extra, "sticky"@);
    lemma_lookup_ignores_unknown(fields, extra, "tiled-edges"@);
    lemma_lookup_ignores_unknown(fields, extra, "title"@);
    lemma_lookup_ignores_unknown(fields, extra, "type"@);
    lemma_lookup_ignores_unknown(fields, extra, "wset-index"@);
}

} // verus!

use wayfire_ipc::call::{
    classify_response, configuration_from_response, input_devices_from_response,
    option_value_from_response, output_from_response, outputs_from_response,
    window_info_from_response, windows_from_response, wsets_from_response,
};
use wayfire_ipc::envelope::{
    decode_envelope, encode_request, request_by_id, request_config_option, request_plain, Method,
    MsgTemplate,
};
use wayfire_ipc::error::{DecodeFault, WayfireError};
use wayfire_ipc::frame::{deframe, frame_payload, read_len, MAX_FRAME_LEN};
use wayfire_ipc::json::Json;
use wayfire_ipc::parse::parse_json;
use wayfire_ipc::records::{
    decode_window, filter_toplevel_mapped, Geometry, Size, Window, Workspace,
};
use wayfire_ipc::ser::to_bytes;

fn s(text: &str) -> Json {
    Json::Str(text.to_owned())
}

fn obj(fields: Vec<(&str, Json)>) -> Json {
    Json::Obj(fields.into_iter().map(|(k, v)| (k.to_owned(), v)).collect())
}

fn geometry_json(height: u64, width: u64, x: u64, y: u64) -> Json {
    obj(vec![
        ("height", Json::Int(height as i64)),
        ("width", Json::Int(width as i64)),
        ("x", Json::Int(x as i64)),
        ("y", Json::Int(y as i64)),
    ])
}

fn workspace_json(gh: u64, gw: u64, x: u64, y: u64) -> Json {
    obj(vec![
        ("grid_height", Json::Int(gh as i64)),
        ("grid_width", Json::Int(gw as i64)),
        ("x", Json::Int(x as i64)),
        ("y", Json::Int(y as i64)),
    ])
}

fn window_json(id: i64, role: &str, mapped: bool, title: &str) -> Json {
    obj(vec![
        ("activated", Json::Bool(true)),
        ("app-id", s("term")),
        ("base-geometry", geometry_json(600, 800, 10, 20)),
        ("bbox", geometry_json(600, 800, 10, 20)),
        ("focusable", Json::Bool(true)),
        ("fullscreen", Json::Bool(false)),
        ("geometry", geometry_json(600, 800, 10, 20)),
        ("id", Json::Int(id)),
        ("last-focus-timestamp", Json::Int(123456)),
        ("layer", s("workspace")),
        ("mapped", Json::Bool(mapped)),
        ("max-size", obj(vec![("height", Json::Int(0)), ("width", Json::Int(0))])),
        ("min-size", obj(vec![("height", Json::Int(1)), ("width", Json::Int(1))])),
        ("minimized", Json::Bool(false)),
        ("output-id", Json::Int(1)),
        ("output-name", s("eDP-1")),
        ("parent", Json::Int(-1)),
        ("pid", Json::Int(4242)),
        ("role", s(role)),
        ("sticky", Json::Bool(false)),
        ("tiled-edges", Json::Int(0)),
        ("title", s(title)),
        ("type", s("toplevel")),
        ("wset-index", Json::Int(1)),
    ])
}

fn output_json(id: i64, name: &str) -> Json {
    obj(vec![
        ("geometry", geometry_json(1080, 1920, 0, 0)),
        ("id", Json::Int(id)),
        ("name", s(name)),
        ("workarea", geometry_json(1050, 1920, 0, 30)),
        ("workspace", workspace_json(3, 3, 1, 2)),
        ("wset-index", Json::Int(1)),
    ])
}

#[test]
fn frame_round_trip_small() {
    let payload: Vec<u8> = b"hello".to_vec();
    let framed = frame_payload(&payload).unwrap();
    assert_eq!(&framed[..4], &[5, 0, 0, 0]);
    assert_eq!(&framed[4..], b"hello");
    let back = deframe(&framed).unwrap();
    assert_eq!(back, payload);
}

#[test]
fn frame_round_trip_empty() {
    let payload: Vec<u8> = Vec::new();
    let framed = frame_payload(&payload).unwrap();
    assert_eq!(framed, vec![0, 0, 0, 0]);
    let back = deframe(&framed).unwrap();
    assert!(back.is_empty());
}

#[test]
fn frame_round_trip_large() {
    let payload: Vec<u8> = (0..100_000u32).map(|i| (i % 251) as u8).collect();
    let framed = frame_payload(&payload).unwrap();
    assert_eq!(framed.len(), payload.len() + 4);
    let back = deframe(&framed).unwrap();
    assert_eq!(back, payload);
}

#[test]
fn frame_header_over_cap_is_io_error() {
    let header = [0xff, 0xff, 0xff, 0xff];
    match read_len(&header) {
        Err(WayfireError::Io(_)) => {}
        other => panic!("expected an I/O error, got {:?}", other),
    }
    let ok = (MAX_FRAME_LEN as u32).to_le_bytes();
    assert_eq!(read_len(&ok).unwrap(), MAX_FRAME_LEN);
}

#[test]
fn deframe_rejects_short_and_mismatched() {
    assert!(matches!(deframe(&[1, 2, 3]), Err(WayfireError::Io(_))));
    // header says 3 bytes, 2 follow
    assert!(matches!(deframe(&[3, 0, 0, 0, 1, 2]), Err(WayfireError::Io(_))));
}

#[test]
fn request_envelope_omits_data_when_absent() {
    let msg = request_plain(Method::ListOutputs);
    let bytes = encode_request(&msg);
    assert_eq!(bytes, b"{\"method\":\"list-outputs\"}".to_vec());
}

#[test]
fn request_envelope_carries_option_params() {
    let msg = request_config_option("core/plugins");
    let bytes = encode_request(&msg);
    assert_eq!(
        bytes,
        b"{\"method\":\"get-config-option\",\"data\":{\"option\":\"core/plugins\"}}".to_vec()
    );
}

#[test]
fn request_envelope_carries_id_params() {
    let msg = request_by_id(Method::GetOutputInfo, 7);
    let bytes = encode_request(&msg);
    assert_eq!(bytes, b"{\"method\":\"get-output-info\",\"data\":{\"id\":7}}".to_vec());
}

#[test]
fn request_round_trip_whole_catalogue() {
    let requests: Vec<MsgTemplate> = vec![
        request_plain(Method::ListViews),
        request_plain(Method::ListOutputs),
        request_plain(Method::ListWsets),
        request_plain(Method::ListInputDevices),
        request_plain(Method::GetConfiguration),
        request_config_option("core/plugins"),
        request_by_id(Method::GetOutputInfo, 1),
        request_by_id(Method::GetViewInfo, -3),
        request_plain(Method::GetFocusedView),
    ];
    let names = vec![
        "list-views",
        "list-outputs",
        "list-wsets",
        "list-input-devices",
        "get-configuration",
        "get-config-option",
        "get-output-info",
        "get-view-info",
        "get-focused-view",
    ];
    for (msg, name) in requests.iter().zip(names) {
        let payload = encode_request(msg);
        let framed = frame_payload(&payload).unwrap();
        let back = deframe(&framed).unwrap();
        let value = parse_json(&back).unwrap();
        let (method, data) = decode_envelope(&value).unwrap();
        assert_eq!(method, name);
        assert_eq!(data, msg.data);
    }
}

#[test]
fn codec_round_trip_nested_value() {
    let v = obj(vec![
        ("a", Json::Arr(vec![Json::Null, Json::Bool(true), Json::Int(-12)])),
        ("b", s("tab\there \"quoted\" back\\slash")),
        ("c", obj(vec![("inner", Json::Arr(vec![]))])),
    ]);
    let bytes = to_bytes(&v);
    let back = parse_json(&bytes).unwrap();
    assert_eq!(back, v);
}

#[test]
fn serializer_escapes_exactly() {
    let v = s("a\"b\\c\nd");
    assert_eq!(to_bytes(&v), b"\"a\\\"b\\\\c\\u000ad\"".to_vec());
}

#[test]
fn parser_handles_standard_escapes() {
    let back = parse_json(b"\"\\t\\r\\n\\b\\f\\/\\u0041\"").unwrap();
    assert_eq!(back, s("\t\r\n\u{8}\u{c}/A"));
}

#[test]
fn parser_keeps_multibyte_utf8() {
    let v = s("caf\u{e9} \u{2764}");
    let bytes = to_bytes(&v);
    let back = parse_json(&bytes).unwrap();
    assert_eq!(back, v);
}

#[test]
fn parser_rejects_non_ascii_unicode_escape() {
    assert!(matches!(
        parse_json(b"\"\\u00e9\""),
        Err(WayfireError::Decode(DecodeFault::Syntax))
    ));
}

#[test]
fn parser_rejects_invalid_utf8() {
    assert!(matches!(
        parse_json(b"\"\xff\xfe\""),
        Err(WayfireError::Decode(DecodeFault::Syntax))
    ));
}

#[test]
fn parser_rejects_fractions_and_trailing_text() {
    assert!(parse_json(b"1.5").is_err());
    assert!(parse_json(b"[1,]").is_err());
    assert!(parse_json(b"{}extra").is_err());
    assert!(parse_json(b"").is_err());
}

#[test]
fn parser_integer_bounds() {
    assert_eq!(parse_json(b"9223372036854775807").unwrap(), Json::Int(i64::MAX));
    assert_eq!(parse_json(b"-9223372036854775808").unwrap(), Json::Int(i64::MIN));
    assert!(parse_json(b"9223372036854775808").is_err());
    assert!(parse_json(b"-9223372036854775809").is_err());
}

#[test]
fn number_round_trip() {
    for n in [0i64, 7, -7, 1000, i64::MAX, i64::MIN] {
        let bytes = to_bytes(&Json::Int(n));
        assert_eq!(parse_json(&bytes).unwrap(), Json::Int(n));
    }
}

#[test]
fn error_object_is_remote_error() {
    let v = obj(vec![("error", obj(vec![("text", s("no such id"))]))]);
    match classify_response(v.clone()) {
        Err(WayfireError::Remote(payload)) => assert_eq!(payload, v),
        other => panic!("expected a remote error, got {:?}", other),
    }
    let plain = obj(vec![("result", s("ok"))]);
    assert_eq!(classify_response(plain.clone()), Ok(plain));
}

#[test]
fn remote_error_is_never_decoded_as_schema() {
    let payload = to_bytes(&obj(vec![("error", obj(vec![("text", s("no such id"))]))]));
    match windows_from_response(&payload) {
        Err(WayfireError::Remote(_)) => {}
        other => panic!("expected a remote error, got {:?}", other),
    }
    match output_from_response(&payload) {
        Err(WayfireError::Remote(_)) => {}
        other => panic!("expected a remote error, got {:?}", other),
    }
}

#[test]
fn missing_info_field_is_decode_error() {
    // a full window record, but not wrapped in the `info` field
    let payload = to_bytes(&window_json(9, "toplevel", true, "editor"));
    match window_info_from_response(&payload) {
        Err(WayfireError::Decode(DecodeFault::MissingField(k))) => assert_eq!(k, "info"),
        other => panic!("expected a missing-field error, got {:?}", other),
    }
}

#[test]
fn wrapped_info_field_decodes() {
    let payload = to_bytes(&obj(vec![("info", window_json(9, "toplevel", true, "editor"))]));
    let w = window_info_from_response(&payload).unwrap();
    assert_eq!(w.id, 9);
    assert_eq!(w.title, "editor");
    assert_eq!(w.geometry, Geometry { height: 600, width: 800, x: 10, y: 20 });
    assert_eq!(w.max_size, Size { height: 0, width: 0 });
}

#[test]
fn window_missing_id_is_decode_error() {
    let mut fields = match window_json(1, "toplevel", true, "t") {
        Json::Obj(fields) => fields,
        _ => unreachable!(),
    };
    fields.retain(|(k, _)| k != "id");
    match decode_window(&Json::Obj(fields)) {
        Err(WayfireError::Decode(DecodeFault::MissingField(k))) => assert_eq!(k, "id"),
        other => panic!("expected a missing-field error, got {:?}", other),
    }
}

#[test]
fn window_with_unknown_extra_field_decodes() {
    let mut fields = match window_json(1, "toplevel", true, "t") {
        Json::Obj(fields) => fields,
        _ => unreachable!(),
    };
    fields.push(("extra".to_owned(), Json::Int(1)));
    let w = decode_window(&Json::Obj(fields)).unwrap();
    assert_eq!(w.id, 1);
    assert_eq!(w.title, "t");
}

#[test]
fn window_with_wrong_field_type_is_decode_error() {
    let mut fields = match window_json(1, "toplevel", true, "t") {
        Json::Obj(fields) => fields,
        _ => unreachable!(),
    };
    for f in fields.iter_mut() {
        if f.0 == "pid" {
            f.1 = s("not a number");
        }
    }
    match decode_window(&Json::Obj(fields)) {
        Err(WayfireError::Decode(DecodeFault::WrongType(k))) => assert_eq!(k, "pid"),
        other => panic!("expected a wrong-type error, got {:?}", other),
    }
}

#[test]
fn filtering_keeps_toplevel_mapped_in_order() {
    let payload = to_bytes(&Json::Arr(vec![
        window_json(1, "toplevel", true, "one"),
        window_json(2, "desktop-environment", true, "panel"),
        window_json(3, "toplevel", false, "hidden"),
        window_json(4, "toplevel", true, "four"),
    ]));
    let windows = windows_from_response(&payload).unwrap();
    let filtered = filter_toplevel_mapped(windows);
    let ids: Vec<i64> = filtered.iter().map(|w| w.id).collect();
    assert_eq!(ids, vec![1, 4]);
}

#[test]
fn list_views_decodes_all_windows() {
    let payload = to_bytes(&Json::Arr(vec![
        window_json(1, "toplevel", true, "one"),
        window_json(2, "toplevel", true, "two"),
    ]));
    let windows = windows_from_response(&payload).unwrap();
    assert_eq!(windows.len(), 2);
    assert_eq!(windows[0].id, 1);
    assert_eq!(windows[1].id, 2);
    // one bad element poisons the whole list
    let bad = to_bytes(&Json::Arr(vec![window_json(1, "toplevel", true, "one"), Json::Int(3)]));
    assert!(matches!(windows_from_response(&bad), Err(WayfireError::Decode(_))));
}

#[test]
fn configuration_and_option_value_decode() {
    let config_payload = to_bytes(&obj(vec![
        ("api-version", Json::Int(1)),
        ("build-branch", s("master")),
        ("build-commit", s("abc123")),
        ("plugin-path", s("/usr/lib/wayfire")),
        ("plugin-xml-dir", s("/usr/share/wayfire/metadata")),
        ("xwayland-support", Json::Int(1)),
    ]));
    let config = configuration_from_response(&config_payload).unwrap();
    assert_eq!(config.api_version, 1);
    assert_eq!(config.build_branch, "master");
    assert_eq!(config.xwayland_support, 1);

    let option_payload = to_bytes(&obj(vec![
        ("default", s("a b c")),
        ("result", s("ok")),
        ("value", s("a b")),
    ]));
    let option = option_value_from_response(&option_payload).unwrap();
    assert_eq!(option.default, "a b c");
    assert_eq!(option.result, "ok");
    assert_eq!(option.value, "a b");
}

#[test]
fn input_devices_and_wsets_decode() {
    let devices_payload = to_bytes(&Json::Arr(vec![obj(vec![
        ("id", Json::Int(11)),
        ("name", s("keyboard")),
        ("type", s("keyboard")),
    ])]));
    let devices = input_devices_from_response(&devices_payload).unwrap();
    assert_eq!(devices.len(), 1);
    assert_eq!(devices[0].id, 11);
    assert_eq!(devices[0].type_field, "keyboard");

    let wsets_payload = to_bytes(&Json::Arr(vec![obj(vec![
        ("index", Json::Int(1)),
        ("name", s("default")),
        ("output-id", Json::Int(1)),
        ("output-name", s("eDP-1")),
        ("workspace", workspace_json(3, 3, 0, 0)),
    ])]));
    let wsets = wsets_from_response(&wsets_payload).unwrap();
    assert_eq!(wsets.len(), 1);
    assert_eq!(wsets[0].workspace, Workspace { grid_height: 3, grid_width: 3, x: 0, y: 0 });
}

#[test]
fn end_to_end_list_outputs_against_stub() {
    // client side: build and frame the request
    let request = request_plain(Method::ListOutputs);
    let request_frame = frame_payload(&encode_request(&request)).unwrap();

    // stub endpoint: deframe, parse, check the method, reply with two outputs
    let received = deframe(&request_frame).unwrap();
    assert_eq!(received, b"{\"method\":\"list-outputs\"}".to_vec());
    let request_value = parse_json(&received).unwrap();
    let (method, data) = decode_envelope(&request_value).unwrap();
    assert_eq!(method, "list-outputs");
    assert_eq!(data, None);
    let reply = Json::Arr(vec![output_json(1, "eDP-1"), output_json(2, "HDMI-A-1")]);
    let reply_frame = frame_payload(&to_bytes(&reply)).unwrap();

    // client side again: deframe and decode the typed result
    let reply_payload = deframe(&reply_frame).unwrap();
    let outputs = outputs_from_response(&reply_payload).unwrap();
    assert_eq!(outputs.len(), 2);
    assert_eq!(outputs[0].id, 1);
    assert_eq!(outputs[0].name, "eDP-1");
    assert_eq!(outputs[0].geometry, Geometry { height: 1080, width: 1920, x: 0, y: 0 });
    assert_eq!(outputs[0].work_area, Geometry { height: 1050, width: 1920, x: 0, y: 30 });
    assert_eq!(outputs[0].workspace, Workspace { grid_height: 3, grid_width: 3, x: 1, y: 2 });
    assert_eq!(outputs[0].wset_index, 1);
    assert_eq!(outputs[1].id, 2);
    assert_eq!(outputs[1].name, "HDMI-A-1");
}

#[test]
fn oversized_request_is_encode_error() {
    let payload: Vec<u8> = vec![0x20; (MAX_FRAME_LEN as usize) + 1];
    assert!(matches!(frame_payload(&payload), Err(WayfireError::Encode(_))));
}

#[test]
fn method_catalogue_names_and_unwrap_rules() {
    assert_eq!(Method::ListViews.wire_name(), "list-views");
    assert_eq!(Method::GetFocusedView.wire_name(), "get-focused-view");
    assert!(Method::GetViewInfo.unwraps_info());
    assert!(Method::GetFocusedView.unwraps_info());
    assert!(!Method::ListViews.unwraps_info());
    assert!(!Method::GetOutputInfo.unwraps_info());
}

#[test]
fn empty_containers_parse() {
    assert_eq!(parse_json(b"{}").unwrap(), Json::Obj(vec![]));
    assert_eq!(parse_json(b"[]").unwrap(), Json::Arr(vec![]));
    assert_eq!(parse_json(b"[[],{}]").unwrap(), Json::Arr(vec![Json::Arr(vec![]), Json::Obj(vec![])]));
    assert_eq!(parse_json(b"null").unwrap(), Json::Null);
}

#[test]
fn object_lookup_returns_first_binding() {
    let v = parse_json(b"{\"k\":1,\"k\":2}").unwrap();
    assert_eq!(v.get("k"), Some(&Json::Int(1)));
    assert_eq!(v.get("missing"), None);
}

use vrc_oscquery::json::{decimal_string, encode_node};
use vrc_oscquery::node::{Access, OscNode};
use vrc_oscquery::server::{encode_host_info, HostInfo};

#[test]
fn empty_container_omits_optional_fields() {
    let n = OscNode::new_container("/avatar");
    assert_eq!(encode_node(&n).unwrap(), r#"{"FULL_PATH":"/avatar","ACCESS":0}"#);
}

#[test]
fn root_with_one_child() {
    let mut root = OscNode::new_container("/");
    OscNode::ensure_path(&mut root, "/avatar");
    assert_eq!(
        encode_node(&root).unwrap(),
        r#"{"FULL_PATH":"/","ACCESS":0,"CONTENTS":{"avatar":{"FULL_PATH":"/avatar","ACCESS":0}}}"#
    );
}

#[test]
fn method_has_type_and_access() {
    let n = OscNode::new_method("/a/\"q\"", Access::ReadWrite, "f");
    assert_eq!(
        encode_node(&n).unwrap(),
        r#"{"FULL_PATH":"/a/\"q\"","ACCESS":3,"TYPE":"f"}"#
    );
}

#[test]
fn value_is_emitted_as_given() {
    let mut n = OscNode::new_method("/v", Access::Read, "i");
    n.value = Some("[5]".to_string());
    assert_eq!(
        encode_node(&n).unwrap(),
        r#"{"FULL_PATH":"/v","ACCESS":1,"TYPE":"i","VALUE":[5]}"#
    );
}

#[test]
fn decimal_forms() {
    assert_eq!(decimal_string(0), "0");
    assert_eq!(decimal_string(9000), "9000");
    assert_eq!(decimal_string(65535), "65535");
}

#[test]
fn host_info_json() {
    let h = HostInfo {
        name: "TestApp".to_string(),
        osc_ip: "127.0.0.1".to_string(),
        osc_port: 9001,
        osc_transport: "UDP".to_string(),
        extensions: Vec::new(),
    };
    assert_eq!(
        encode_host_info(&h).unwrap(),
        r#"{"NAME":"TestApp","OSC_IP":"127.0.0.1","OSC_PORT":9001,"OSC_TRANSPORT":"UDP","EXTENSIONS":{}}"#
    );
}

#[test]
fn host_info_json_with_extensions() {
    let h = HostInfo {
        name: "A".to_string(),
        osc_ip: "10.0.0.2".to_string(),
        osc_port: 1,
        osc_transport: "UDP".to_string(),
        extensions: vec![("VALUE".to_string(), true), ("RANGE".to_string(), false)],
    };
    assert_eq!(
        encode_host_info(&h).unwrap(),
        r#"{"NAME":"A","OSC_IP":"10.0.0.2","OSC_PORT":1,"OSC_TRANSPORT":"UDP","EXTENSIONS":{"VALUE":true,"RANGE":false}}"#
    );
}

#[test]
fn strings_are_escaped() {
    let n = OscNode::new_method("/a\nb\u{1}\\", Access::Read, "\t");
    assert_eq!(
        encode_node(&n).unwrap(),
        "{\"FULL_PATH\":\"/a\\nb\\u0001\\\\\",\"ACCESS\":1,\"TYPE\":\"\\t\"}"
    );
}

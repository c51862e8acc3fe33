use vrc_oscquery::json::encode_node;
use vrc_oscquery::node::OscNode;
use vrc_oscquery::server::{
    advertisement_records, handle_request, host_name_for, is_host_info_query, IpAddress,
    OscQueryServerBuilder,
};

fn builder() -> OscQueryServerBuilder {
    OscQueryServerBuilder::new("TestApp", 9001).with_vrchat_avatar_receiver()
}

#[test]
fn host_info_query_any_case() {
    assert!(is_host_info_query("HOST_INFO"));
    assert!(is_host_info_query("host_info"));
    assert!(is_host_info_query("Host_Info"));
    assert!(!is_host_info_query(""));
    assert!(!is_host_info_query("HOST_INFOS"));
    assert!(!is_host_info_query("VALUE"));
}

#[test]
fn responder_serves_host_info() {
    let b = builder();
    let h = b.host_info("127.0.0.1".to_string());
    let r = handle_request("host_info", &h, b.root());
    assert_eq!(r.status, 200);
    assert_eq!(r.content_type, "application/json");
    assert_eq!(
        r.body,
        r#"{"NAME":"TestApp","OSC_IP":"127.0.0.1","OSC_PORT":9001,"OSC_TRANSPORT":"UDP","EXTENSIONS":{}}"#
    );
}

#[test]
fn responder_serves_tree_otherwise() {
    let b = builder();
    let h = b.host_info("127.0.0.1".to_string());
    let expected = encode_node(b.root()).unwrap();
    assert_eq!(handle_request("", &h, b.root()).body, expected);
    assert_eq!(handle_request("VALUE", &h, b.root()).body, expected);
    assert_eq!(
        expected,
        r#"{"FULL_PATH":"/","ACCESS":0,"CONTENTS":{"avatar":{"FULL_PATH":"/avatar","ACCESS":0}}}"#
    );
}

#[test]
fn records_for_both_endpoints() {
    let r = advertisement_records("TestApp", 8080, 9001);
    assert_eq!(r.len(), 2);
    assert_eq!(r[0].service_type, "_oscjson._tcp.local.");
    assert_eq!(r[0].instance_name, "TestApp");
    assert_eq!(r[0].host_name, "TestApp.oscjson.local.");
    assert_eq!(r[0].port, 8080);
    assert_eq!(
        r[0].properties,
        vec![
            ("name".to_string(), "TestApp".to_string()),
            ("osc_port".to_string(), "9001".to_string()),
            ("osc_transport".to_string(), "UDP".to_string()),
        ]
    );
    assert_eq!(r[1].service_type, "_osc._udp.local.");
    assert_eq!(r[1].host_name, "TestApp.oscjson.local.");
    assert_eq!(r[1].port, 9001);
    assert_eq!(r[1].properties, vec![("name".to_string(), "TestApp".to_string())]);
    assert_eq!(host_name_for("X"), "X.oscjson.local.");
}

#[test]
fn builder_defaults_and_presets() {
    let b = OscQueryServerBuilder::new("App", 7000);
    assert_eq!(b.app_name(), "App");
    assert_eq!(b.http_port(), 0);
    assert_eq!(b.osc_port(), 7000);
    assert!(matches!(b.bind_ip(), IpAddress::V4([127, 0, 0, 1])));
    let b = b
        .with_http_port(8080)
        .with_bind_ip(IpAddress::V4([0, 0, 0, 0]))
        .with_vrchat_tracking_receiver();
    assert_eq!(b.http_port(), 8080);
    assert!(matches!(b.bind_ip(), IpAddress::V4([0, 0, 0, 0])));
    let root: OscNode = b.into_root();
    let t = &root.contents[0];
    assert_eq!(t.0, "tracking");
    assert_eq!(t.1.contents[0].1.full_path, "/tracking/vrsystem");
    let a = advertisement_records("App", 8080, 7000);
    assert_eq!(a[0].port, 8080);
}

#[test]
fn responder_bodies_for_fresh_and_filled_trees() {
    let b = OscQueryServerBuilder::new("TestApp", 9001);
    let h = b.host_info("127.0.0.1".to_string());
    assert_eq!(handle_request("", &h, b.root()).body, r#"{"FULL_PATH":"/","ACCESS":0}"#);
    let mut root = b.into_root();
    OscNode::add_method(&mut root, "/avatar/parameters/Foo", vrc_oscquery::node::Access::ReadWrite, "f");
    assert_eq!(
        handle_request("HOST_INFO2", &h, &root).body,
        r#"{"FULL_PATH":"/","ACCESS":0,"CONTENTS":{"avatar":{"FULL_PATH":"/avatar","ACCESS":0,"CONTENTS":{"parameters":{"FULL_PATH":"/avatar/parameters","ACCESS":0,"CONTENTS":{"Foo":{"FULL_PATH":"/avatar/parameters/Foo","ACCESS":3,"TYPE":"f"}}}}}}}"#
    );
}

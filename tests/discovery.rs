use vrc_oscquery::client::{
    on_event, remaining_wait, DiscoveryEvent, DiscoveryFilter, OscQueryError, ResolvedService,
};

fn resolved(ty: &str, name: &str, addrs: Vec<[u8; 4]>) -> DiscoveryEvent {
    DiscoveryEvent::Resolved(ResolvedService {
        ty_domain: ty.to_string(),
        fullname: name.to_string(),
        host: "peer.local.".to_string(),
        port: 9123,
        addresses_v4: addrs,
    })
}

/// Runs a discovery over a scripted stream of (time, event) pairs, as the application's
/// loop does over the live one.
fn run(deadline: u64, script: Vec<(u64, DiscoveryEvent)>) -> Result<(String, String, [u8; 4], u16), String> {
    let f = DiscoveryFilter::vrchat();
    for (now, ev) in script {
        if remaining_wait(deadline, now).is_none() {
            return Err("timeout".to_string());
        }
        match on_event(&f, ev) {
            None => continue,
            Some(Ok(s)) => return Ok((s.instance_name, s.host_name, s.addr_v4, s.port)),
            Some(Err(OscQueryError::DiscoveryTimeout)) => return Err("timeout".to_string()),
            Some(Err(OscQueryError::DiscoveryChannelClosed)) => return Err("closed".to_string()),
            Some(Err(_)) => return Err("other".to_string()),
        }
    }
    Err("timeout".to_string())
}

#[test]
fn matching_service_is_found() {
    let r = run(
        100,
        vec![
            (1, DiscoveryEvent::Other),
            (2, resolved("_oscjson._tcp.local.", "VRChat-Client-1._oscjson._tcp.local.", vec![[192, 168, 1, 5], [10, 0, 0, 1]])),
        ],
    );
    assert_eq!(
        r,
        Ok((
            "VRChat-Client-1._oscjson._tcp.local.".to_string(),
            "peer.local.".to_string(),
            [192, 168, 1, 5],
            9123
        ))
    );
}

#[test]
fn missing_address_falls_back_to_loopback() {
    let r = run(100, vec![(2, resolved("_oscjson._tcp.local.", "VRChat-Client-9", vec![]))]);
    assert_eq!(r.unwrap().2, [127, 0, 0, 1]);
}

#[test]
fn non_matching_events_end_in_timeout() {
    let r = run(
        10,
        vec![
            (1, resolved("_oscjson._tcp.local.", "Other-App._oscjson._tcp.local.", vec![[1, 2, 3, 4]])),
            (2, resolved("_osc._udp.local.", "VRChat-Client-1._osc._udp.local.", vec![[1, 2, 3, 4]])),
            (5, DiscoveryEvent::Other),
            (10, DiscoveryEvent::Other),
        ],
    );
    assert_eq!(r, Err("timeout".to_string()));
}

#[test]
fn wait_timing_out_is_timeout() {
    let f = DiscoveryFilter::vrchat();
    assert!(matches!(on_event(&f, DiscoveryEvent::WaitTimedOut), Some(Err(OscQueryError::DiscoveryTimeout))));
}

#[test]
fn closed_channel_is_reported() {
    let r = run(100, vec![(1, DiscoveryEvent::Other), (2, DiscoveryEvent::ChannelClosed)]);
    assert_eq!(r, Err("closed".to_string()));
}

#[test]
fn remaining_wait_shrinks_to_none() {
    assert_eq!(remaining_wait(100, 40), Some(60));
    assert_eq!(remaining_wait(100, 100), None);
    assert_eq!(remaining_wait(100, 150), None);
}

#[test]
fn filter_matches_type_and_prefix() {
    let f = DiscoveryFilter::vrchat();
    let svc = ResolvedService {
        ty_domain: "_oscjson._tcp.local.".to_string(),
        fullname: "VRChat-Client-ABC".to_string(),
        host: String::new(),
        port: 1,
        addresses_v4: vec![],
    };
    assert!(f.matches(&svc));
    let mut other = svc.clone();
    other.fullname = "VRChat-Client".to_string();
    assert!(!f.matches(&other));
}

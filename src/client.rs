use vstd::prelude::*;

verus! {

#[verifier::external_type_specification]
#[verifier::external_body]
pub struct ExMdnsError(mdns_sd::Error);

/// A peer's OSCQuery service, found on the network.
#[derive(Debug, Clone)]
pub struct DiscoveredOscQueryService {
    /// The mDNS full service name, e.g. `VRChat-Client-123456._oscjson._tcp.local.`.
    pub instance_name: String,
    pub host_name: String,
    pub addr_v4: [u8; 4],
    pub port: u16,
}

#[derive(Debug)]
pub enum OscQueryError {
    Mdns(mdns_sd::Error),
    Json(serde_json::Error),
    DiscoveryTimeout,
    DiscoveryChannelClosed,
}

/// A service instance as the mDNS browse resolved it.
#[derive(Debug, Clone)]
pub struct ResolvedService {
    pub ty_domain: String,
    pub fullname: String,
    pub host: String,
    pub port: u16,
    pub addresses_v4: Vec<[u8; 4]>,
}

/// What a bounded wait on the browse subscription produced.
#[derive(Debug, Clone)]
pub enum DiscoveryEvent {
    Resolved(ResolvedService),
    /// Any other browse event (search started, service found or removed, ...).
    Other,
    ChannelClosed,
    WaitTimedOut,
}

/// The service that a discovery looks for.
#[derive(Debug, Clone)]
pub struct DiscoveryFilter {
    pub service_type: String,
    pub name_prefix: String,
}

pub open spec fn starts_with(s: Seq<char>, prefix: Seq<char>) -> bool {
    prefix.len() <= s.len() && s.take(prefix.len() as int) == prefix
}

/// A resolved service has the filter's service type and a full name that starts with
/// the filter's prefix.
pub open spec fn spec_matches(f: DiscoveryFilter, svc: ResolvedService) -> bool {
    svc.ty_domain@ == f.service_type@ && starts_with(svc.fullname@, f.name_prefix@)
}

pub open spec fn loopback_v4() -> [u8; 4] {
    [127u8, 0u8, 0u8, 1u8]
}

/// The address reported for a match: its first IPv4 address, or loopback when it has none.
pub open spec fn first_v4(addrs: Seq<[u8; 4]>) -> [u8; 4] {
    if addrs.len() > 0 {
        addrs[0]
    } else {
        loopback_v4()
    }
}

/// The outcome of a discovery on an event, or `None` to keep waiting.
pub open spec fn spec_on_event(f: DiscoveryFilter, ev: DiscoveryEvent) -> Option<
    Result<(Seq<char>, Seq<char>, [u8; 4], u16), ()>,
> {
    match ev {
        DiscoveryEvent::Resolved(svc) => if spec_matches(f, svc) {
            Some(Ok((svc.fullname@, svc.host@, first_v4(svc.addresses_v4@), svc.port)))
        } else {
            None
        },
        DiscoveryEvent::Other => None,
        DiscoveryEvent::ChannelClosed => Some(Err(())),
        DiscoveryEvent::WaitTimedOut => Some(Err(())),
    }
}

/// Whether `s` begins with `prefix`.
pub fn str_starts_with(s: &str, prefix: &str) -> (r: bool)
    ensures
        r == starts_with(s@, prefix@),
{
    let n = s.unicode_len();
    let m = prefix.unicode_len();
    if m > n {
        return false;
    }
    let mut i: usize = 0;
    while i < m
        invariant
            i <= m <= n,
            n == s@.len(),
            m == prefix@.len(),
            forall|j: int| 0 <= j < i ==> s@[j] == prefix@[j],
        decreases m - i,
    {
        if s.get_char(i) != prefix.get_char(i) {
            assert(s@.take(m as int)[i as int] != prefix@[i as int]);
            return false;
        }
        i = i + 1;
    }
    assert(s@.take(m as int) =~= prefix@);
    true
}

impl DiscoveryFilter {
    /// The filter for VRChat's own OSCQuery service.
    pub fn vrchat() -> (r: DiscoveryFilter)
        ensures
            r.service_type@ == seq!['_', 'o', 's', 'c', 'j', 's', 'o', 'n', '.', '_', 't', 'c', 'p', '.', 'l', 'o', 'c', 'a', 'l', '.'],
            r.name_prefix@ == seq!['V', 'R', 'C', 'h', 'a', 't', '-', 'C', 'l', 'i', 'e', 'n', 't', '-'],
    {
        proof {
            reveal_strlit("_oscjson._tcp.local.");
            reveal_strlit("VRChat-Client-");
        }
        let r = DiscoveryFilter {
            service_type: String::from_str("_oscjson._tcp.local."),
            name_prefix: String::from_str("VRChat-Client-"),
        };
        assert(r.service_type@ =~= seq!['_', 'o', 's', 'c', 'j', 's', 'o', 'n', '.', '_', 't', 'c', 'p', '.', 'l', 'o', 'c', 'a', 'l', '.']);
        assert(r.name_prefix@ =~= seq!['V', 'R', 'C', 'h', 'a', 't', '-', 'C', 'l', 'i', 'e', 'n', 't', '-']);
        r
    }

    /// Whether a resolved service is the one looked for: its service type equals the
    /// filter's and its full name starts with the filter's prefix.
    pub fn matches(&self, svc: &ResolvedService) -> (r: bool)
        ensures
            r == spec_matches(*self, *svc),
    {
        svc.ty_domain == self.service_type && str_starts_with(
            svc.fullname.as_str(),
            self.name_prefix.as_str(),
        )
    }
}

/// How long a discovery may still wait, given its deadline and the time now (in one
/// unit); `None` once the deadline has come.
pub fn remaining_wait(deadline: u64, now: u64) -> (r: Option<u64>)
    ensures
        now < deadline ==> r == Some((deadline - now) as u64),
        now >= deadline ==> r is None,
{
    if now < deadline {
        Some(deadline - now)
    } else {
        None
    }
}

/// Decides what a discovery does with an event: a matching resolved service ends it with
/// that service (its first IPv4 address, or loopback when it has none); a closed channel
/// ends it with `DiscoveryChannelClosed`; a wait that timed out ends it with
/// `DiscoveryTimeout`; any other event (`None`) lets it wait on.
pub fn on_event(filter: &DiscoveryFilter, ev: DiscoveryEvent) -> (r: Option<
    Result<DiscoveredOscQueryService, OscQueryError>,
>)
    ensures
        r is None <==> spec_on_event(*filter, ev) is None,
        r matches Some(Ok(s)) ==> spec_on_event(*filter, ev) == Some(
            Ok::<(Seq<char>, Seq<char>, [u8; 4], u16), ()>(
                (s.instance_name@, s.host_name@, s.addr_v4, s.port),
            ),
        ),
        r matches Some(Err(e)) ==> spec_on_event(*filter, ev) == Some(
            Err::<(Seq<char>, Seq<char>, [u8; 4], u16), ()>(()),
        ) && (ev is ChannelClosed ==> e is DiscoveryChannelClosed) && (ev is WaitTimedOut
            ==> e is DiscoveryTimeout),
{
    match ev {
        DiscoveryEvent::Resolved(svc) => {
            if filter.matches(&svc) {
                let addr = if svc.addresses_v4.len() > 0 {
                    svc.addresses_v4[0]
                } else {
                    [127u8, 0u8, 0u8, 1u8]
                };
                assert(addr == first_v4(svc.addresses_v4@));
                Some(
                    Ok(
                        DiscoveredOscQueryService {
                            instance_name: svc.fullname,
                            host_name: svc.host,
                            addr_v4: addr,
                            port: svc.port,
                        },
                    ),
                )
            } else {
                None
            }
        },
        DiscoveryEvent::Other => None,
        DiscoveryEvent::ChannelClosed => Some(Err(OscQueryError::DiscoveryChannelClosed)),
        DiscoveryEvent::WaitTimedOut => Some(Err(OscQueryError::DiscoveryTimeout)),
    }
}

} // verus!

use vstd::prelude::*;
use crate::json::{decimal, decimal_string, encode_node, json_quoted, key_json, node_json, quote_json};
use crate::node::{ensured, lemma_graft_below, OscNode};
use crate::path::path_segments_of;

verus! {

/// What the serving application says of itself under `?HOST_INFO`.
#[derive(Debug, Clone)]
pub struct HostInfo {
    pub name: String,
    pub osc_ip: String,
    pub osc_port: u16,
    pub osc_transport: String,
    /// Protocol feature flags, by name.
    pub extensions: Vec<(String, bool)>,
}

/// The JSON text of `true` or `false`.
pub open spec fn bool_json(b: bool) -> Seq<char> {
    if b {
        seq!['t', 'r', 'u', 'e']
    } else {
        seq!['f', 'a', 'l', 's', 'e']
    }
}

/// The first `k` extension flags as JSON object members, separated by commas.
pub open spec fn extensions_json(ext: Seq<(String, bool)>, k: int) -> Seq<char>
    decreases k,
{
    if k <= 0 || k > ext.len() {
        Seq::empty()
    } else {
        (if k == 1 {
            Seq::empty()
        } else {
            extensions_json(ext, k - 1) + seq![',']
        }) + json_quoted(ext[k - 1].0@) + seq![':'] + bool_json(ext[k - 1].1)
    }
}

/// The JSON text of a host info record.
pub open spec fn host_info_json(h: HostInfo) -> Seq<char> {
    seq!['{'] + key_json(seq!['N', 'A', 'M', 'E']) + json_quoted(h.name@) + seq![','] + key_json(
        seq!['O', 'S', 'C', '_', 'I', 'P'],
    ) + json_quoted(h.osc_ip@) + seq![','] + key_json(seq!['O', 'S', 'C', '_', 'P', 'O', 'R', 'T'])
        + decimal(h.osc_port as nat) + seq![','] + key_json(
        seq!['O', 'S', 'C', '_', 'T', 'R', 'A', 'N', 'S', 'P', 'O', 'R', 'T'],
    ) + json_quoted(h.osc_transport@) + seq![','] + key_json(
        seq!['E', 'X', 'T', 'E', 'N', 'S', 'I', 'O', 'N', 'S'],
    ) + seq!['{'] + extensions_json(h.extensions@, h.extensions@.len() as int) + seq!['}', '}']
}

/// Encodes a host info record as JSON text.
pub fn encode_host_info(h: &HostInfo) -> (r: Result<String, serde_json::Error>)
    ensures
        r is Ok,
        r matches Ok(t) ==> t@ == host_info_json(*h),
{
    proof {
        reveal_strlit("{\"NAME\":");
        reveal_strlit(",\"OSC_IP\":");
        reveal_strlit(",\"OSC_PORT\":");
        reveal_strlit(",\"OSC_TRANSPORT\":");
        reveal_strlit(",\"EXTENSIONS\":{");
        reveal_strlit("}}");
    }
    let mut out = String::from_str("{\"NAME\":");
    let q = quote_json(h.name.as_str())?;
    out.append(q.as_str());
    out.append(",\"OSC_IP\":");
    let q = quote_json(h.osc_ip.as_str())?;
    out.append(q.as_str());
    out.append(",\"OSC_PORT\":");
    let p = decimal_string(h.osc_port as u64);
    out.append(p.as_str());
    out.append(",\"OSC_TRANSPORT\":");
    let q = quote_json(h.osc_transport.as_str())?;
    out.append(q.as_str());
    out.append(",\"EXTENSIONS\":{");
    let ghost opened = seq!['{'] + key_json(seq!['N', 'A', 'M', 'E']) + json_quoted(h.name@) + seq![
        ',',
    ] + key_json(seq!['O', 'S', 'C', '_', 'I', 'P']) + json_quoted(h.osc_ip@) + seq![','] + key_json(
        seq!['O', 'S', 'C', '_', 'P', 'O', 'R', 'T'],
    ) + decimal(h.osc_port as nat) + seq![','] + key_json(
        seq!['O', 'S', 'C', '_', 'T', 'R', 'A', 'N', 'S', 'P', 'O', 'R', 'T'],
    ) + json_quoted(h.osc_transport@) + seq![','] + key_json(
        seq!['E', 'X', 'T', 'E', 'N', 'S', 'I', 'O', 'N', 'S'],
    ) + seq!['{'];
    assert(out@ =~= opened);
    let len = h.extensions.len();
    let mut j: usize = 0;
    assert(extensions_json(h.extensions@, 0) =~= Seq::<char>::empty());
    while j < len
        invariant
            j <= len,
            len == h.extensions@.len(),
            out@ == opened + extensions_json(h.extensions@, j as int),
        decreases len - j,
    {
        proof {
            reveal_strlit(",");
            reveal_strlit(":");
            reveal_strlit("true");
            reveal_strlit("false");
        }
        let ghost prev = out@;
        let ghost e = h.extensions@[j as int];
        let ghost sep = if j == 0 {
            Seq::<char>::empty()
        } else {
            seq![',']
        };
        if j > 0 {
            out.append(",");
        }
        assert(out@ =~= prev + sep);
        let kq = quote_json(h.extensions[j].0.as_str())?;
        out.append(kq.as_str());
        out.append(":");
        if h.extensions[j].1 {
            out.append("true");
        } else {
            out.append("false");
        }
        assert(out@ =~= prev + sep + json_quoted(e.0@) + seq![':'] + bool_json(e.1));
        proof {
            let cj = extensions_json(h.extensions@, j as int);
            if j == 0 {
                assert(cj =~= Seq::<char>::empty());
            }
            assert(out@ =~= opened + extensions_json(h.extensions@, j + 1));
        }
        j = j + 1;
    }
    out.append("}}");
    assert(out@ =~= host_info_json(*h));
    Ok(out)
}

pub open spec fn ascii_lower(c: char) -> char {
    if 'A' <= c && c <= 'Z' {
        ((c as u8) + 32) as char
    } else {
        c
    }
}

/// `a` and `b` are equal when ASCII letters are compared without regard to case.
pub open spec fn eq_ignore_ascii_case(a: Seq<char>, b: Seq<char>) -> bool {
    a.len() == b.len() && forall|i: int| 0 <= i < a.len() ==> ascii_lower(a[i]) == ascii_lower(b[i])
}

pub open spec fn host_info_query() -> Seq<char> {
    seq!['H', 'O', 'S', 'T', '_', 'I', 'N', 'F', 'O']
}

fn lower_char(c: char) -> (r: char)
    ensures
        r == ascii_lower(c),
{
    if 'A' <= c && c <= 'Z' {
        ((c as u8) + 32) as char
    } else {
        c
    }
}

/// Whether a request's query string asks for the host info (`HOST_INFO`, in any case).
pub fn is_host_info_query(query: &str) -> (r: bool)
    ensures
        r == eq_ignore_ascii_case(query@, host_info_query()),
{
    let key = "HOST_INFO";
    proof {
        reveal_strlit("HOST_INFO");
    }
    assert(key@ =~= host_info_query());
    let n = query.unicode_len();
    if n != 9 {
        return false;
    }
    let mut i: usize = 0;
    while i < n
        invariant
            i <= n,
            n == query@.len(),
            n == key@.len(),
            key@ == host_info_query(),
            forall|j: int| 0 <= j < i ==> ascii_lower(query@[j]) == ascii_lower(key@[j]),
        decreases n - i,
    {
        if lower_char(query.get_char(i)) != lower_char(key.get_char(i)) {
            return false;
        }
        i = i + 1;
    }
    true
}

/// An HTTP answer: status code, content type and body.
#[derive(Debug, Clone)]
pub struct HttpReply {
    pub status: u16,
    pub content_type: String,
    pub body: String,
}

pub open spec fn json_content_type() -> Seq<char> {
    seq!['a', 'p', 'p', 'l', 'i', 'c', 'a', 't', 'i', 'o', 'n', '/', 'j', 's', 'o', 'n']
}

/// Answers a request by its query string: `HOST_INFO` (in any case) gets the host info,
/// anything else the whole namespace, both as JSON with status 200. Encoding does not
/// fail; the empty and `{}` fallbacks only keep a failure from ending the connection.
pub fn handle_request(query: &str, host_info: &HostInfo, root: &OscNode) -> (r: HttpReply)
    ensures
        r.status == 200,
        r.content_type@ == json_content_type(),
        eq_ignore_ascii_case(query@, host_info_query()) ==> r.body@ == host_info_json(*host_info),
        !eq_ignore_ascii_case(query@, host_info_query()) ==> r.body@ == node_json(*root),
{
    proof {
        reveal_strlit("application/json");
        reveal_strlit("{}");
    }
    let content_type = String::from_str("application/json");
    assert(content_type@ =~= json_content_type());
    if is_host_info_query(query) {
        let body = match encode_host_info(host_info) {
            Ok(t) => t,
            Err(_) => String::new(),
        };
        HttpReply { status: 200, content_type, body }
    } else {
        let body = match encode_node(root) {
            Ok(t) => t,
            Err(_) => String::from_str("{}"),
        };
        HttpReply { status: 200, content_type, body }
    }
}

/// One mDNS service record to register.
#[derive(Debug, Clone)]
pub struct ServiceRecord {
    pub service_type: String,
    pub instance_name: String,
    pub host_name: String,
    pub port: u16,
    pub properties: Vec<(String, String)>,
}

pub open spec fn pairs_view(v: Seq<(String, String)>) -> Seq<(Seq<char>, Seq<char>)> {
    v.map_values(|p: (String, String)| (p.0@, p.1@))
}

pub open spec fn oscjson_type() -> Seq<char> {
    seq!['_', 'o', 's', 'c', 'j', 's', 'o', 'n', '.', '_', 't', 'c', 'p', '.', 'l', 'o', 'c', 'a', 'l', '.']
}

pub open spec fn osc_type() -> Seq<char> {
    seq!['_', 'o', 's', 'c', '.', '_', 'u', 'd', 'p', '.', 'l', 'o', 'c', 'a', 'l', '.']
}

pub open spec fn udp() -> Seq<char> {
    seq!['U', 'D', 'P']
}

/// The host name under which an application's records are advertised.
pub open spec fn host_name_of(app: Seq<char>) -> Seq<char> {
    app + seq!['.', 'o', 's', 'c', 'j', 's', 'o', 'n', '.', 'l', 'o', 'c', 'a', 'l', '.']
}

pub fn host_name_for(app_name: &str) -> (r: String)
    ensures
        r@ == host_name_of(app_name@),
{
    proof {
        reveal_strlit(".oscjson.local.");
    }
    let mut r = String::from_str(app_name);
    r.append(".oscjson.local.");
    assert(r@ =~= host_name_of(app_name@));
    r
}

/// `r` holds the two records that advertise application `app`: its HTTP/JSON endpoint
/// over TCP on `http_port` with the properties `name`, `osc_port` and `osc_transport`, and
/// its OSC endpoint over UDP on `osc_port` with the property `name`, both under the
/// instance name `app` and host name `host_name_of(app)`.
pub open spec fn advertises(r: Seq<ServiceRecord>, app: Seq<char>, http_port: u16, osc_port: u16) -> bool {
    &&& r.len() == 2
    &&& r[0].service_type@ == oscjson_type()
    &&& r[0].instance_name@ == app
    &&& r[0].host_name@ == host_name_of(app)
    &&& r[0].port == http_port
    &&& pairs_view(r[0].properties@) == seq![
        (seq!['n', 'a', 'm', 'e'], app),
        (seq!['o', 's', 'c', '_', 'p', 'o', 'r', 't'], decimal(osc_port as nat)),
        (seq!['o', 's', 'c', '_', 't', 'r', 'a', 'n', 's', 'p', 'o', 'r', 't'], udp()),
    ]
    &&& r[1].service_type@ == osc_type()
    &&& r[1].instance_name@ == app
    &&& r[1].host_name@ == host_name_of(app)
    &&& r[1].port == osc_port
    &&& pairs_view(r[1].properties@) == seq![(seq!['n', 'a', 'm', 'e'], app)]
}

/// The two records that advertise an application.
pub fn advertisement_records(app_name: &str, http_port: u16, osc_port: u16) -> (r: Vec<ServiceRecord>)
    ensures
        advertises(r@, app_name@, http_port, osc_port),
{
    proof {
        reveal_strlit("_oscjson._tcp.local.");
        reveal_strlit("_osc._udp.local.");
        reveal_strlit("name");
        reveal_strlit("osc_port");
        reveal_strlit("osc_transport");
        reveal_strlit("UDP");
    }
    assert("name"@ =~= seq!['n', 'a', 'm', 'e']);
    assert("osc_port"@ =~= seq!['o', 's', 'c', '_', 'p', 'o', 'r', 't']);
    assert("osc_transport"@ =~= seq!['o', 's', 'c', '_', 't', 'r', 'a', 'n', 's', 'p', 'o', 'r', 't']);
    assert("UDP"@ =~= udp());
    let mut props: Vec<(String, String)> = Vec::new();
    props.push((String::from_str("name"), String::from_str(app_name)));
    props.push((String::from_str("osc_port"), decimal_string(osc_port as u64)));
    props.push((String::from_str("osc_transport"), String::from_str("UDP")));
    let tcp = ServiceRecord {
        service_type: String::from_str("_oscjson._tcp.local."),
        instance_name: String::from_str(app_name),
        host_name: host_name_for(app_name),
        port: http_port,
        properties: props,
    };
    let mut props2: Vec<(String, String)> = Vec::new();
    props2.push((String::from_str("name"), String::from_str(app_name)));
    let udp_rec = ServiceRecord {
        service_type: String::from_str("_osc._udp.local."),
        instance_name: String::from_str(app_name),
        host_name: host_name_for(app_name),
        port: osc_port,
        properties: props2,
    };
    let mut r: Vec<ServiceRecord> = Vec::new();
    r.push(tcp);
    r.push(udp_rec);
    assert(r@[0].service_type@ =~= oscjson_type());
    assert(r@[1].service_type@ =~= osc_type());
    assert(pairs_view(r@[0].properties@) =~= seq![
        (seq!['n', 'a', 'm', 'e'], app_name@),
        (seq!['o', 's', 'c', '_', 'p', 'o', 'r', 't'], decimal(osc_port as nat)),
        (seq!['o', 's', 'c', '_', 't', 'r', 'a', 'n', 's', 'p', 'o', 'r', 't'], udp()),
    ]);
    assert(pairs_view(r@[1].properties@) =~= seq![(seq!['n', 'a', 'm', 'e'], app_name@)]);
    r
}

/// An IP address to bind the HTTP listener to.
#[derive(Debug, Clone, Copy)]
pub enum IpAddress {
    V4([u8; 4]),
    V6([u16; 8]),
}

pub open spec fn avatar_path() -> Seq<char> {
    seq!['/', 'a', 'v', 'a', 't', 'a', 'r']
}

pub open spec fn tracking_path() -> Seq<char> {
    seq!['/', 't', 'r', 'a', 'c', 'k', 'i', 'n', 'g', '/', 'v', 'r', 's', 'y', 's', 't', 'e', 'm']
}

/// The configuration of an OSCQuery server, gathered before it starts.
#[derive(Debug)]
pub struct OscQueryServerBuilder {
    app_name: String,
    bind_ip: IpAddress,
    http_port: u16,
    osc_port: u16,
    root: OscNode,
}

impl OscQueryServerBuilder {
    pub closed spec fn spec_app_name(&self) -> Seq<char> {
        self.app_name@
    }

    pub closed spec fn spec_bind_ip(&self) -> IpAddress {
        self.bind_ip
    }

    pub closed spec fn spec_http_port(&self) -> u16 {
        self.http_port
    }

    pub closed spec fn spec_osc_port(&self) -> u16 {
        self.osc_port
    }

    pub closed spec fn spec_root(&self) -> OscNode {
        self.root
    }

    pub open spec fn wf(&self) -> bool {
        self.spec_root().wf()
    }

    /// A configuration for `app_name` whose OSC endpoint listens on UDP port `osc_port`:
    /// bound to loopback, on an HTTP port that the system picks (0), with an empty
    /// namespace.
    pub fn new(app_name: &str, osc_port: u16) -> (r: Self)
        ensures
            r.wf(),
            r.spec_app_name() == app_name@,
            r.spec_bind_ip() == IpAddress::V4([127u8, 0u8, 0u8, 1u8]),
            r.spec_http_port() == 0,
            r.spec_osc_port() == osc_port,
            r.spec_root()@ == map![Seq::<Seq<char>>::empty() => crate::node::container_attrs(seq!['/'])],
    {
        proof {
            reveal_strlit("/");
        }
        let root = OscNode::new_container("/");
        assert("/"@ =~= seq!['/']);
        OscQueryServerBuilder {
            app_name: String::from_str(app_name),
            bind_ip: IpAddress::V4([127u8, 0u8, 0u8, 1u8]),
            http_port: 0,
            osc_port,
            root,
        }
    }

    pub fn with_bind_ip(self, ip: IpAddress) -> (r: Self)
        ensures
            r.spec_bind_ip() == ip,
            r.spec_app_name() == self.spec_app_name(),
            r.spec_http_port() == self.spec_http_port(),
            r.spec_osc_port() == self.spec_osc_port(),
            r.spec_root() == self.spec_root(),
    {
        let mut s = self;
        s.bind_ip = ip;
        s
    }

    pub fn with_http_port(self, port: u16) -> (r: Self)
        ensures
            r.spec_http_port() == port,
            r.spec_app_name() == self.spec_app_name(),
            r.spec_bind_ip() == self.spec_bind_ip(),
            r.spec_osc_port() == self.spec_osc_port(),
            r.spec_root() == self.spec_root(),
    {
        let mut s = self;
        s.http_port = port;
        s
    }

    /// Makes sure that `/avatar` exists, so that avatar changes and parameters are
    /// routed to this application.
    pub fn with_vrchat_avatar_receiver(self) -> (r: Self)
        requires
            self.wf(),
        ensures
            r.wf(),
            r.spec_root()@ == ensured(self.spec_root()@, Seq::empty(), path_segments_of(avatar_path())),
            r.spec_app_name() == self.spec_app_name(),
            r.spec_bind_ip() == self.spec_bind_ip(),
            r.spec_http_port() == self.spec_http_port(),
            r.spec_osc_port() == self.spec_osc_port(),
    {
        proof {
            reveal_strlit("/avatar");
        }
        let mut s = self;
        let ghost e0 = ensured(s.root@, Seq::empty(), path_segments_of(avatar_path()));
        assert("/avatar"@ =~= avatar_path());
        OscNode::ensure_path(&mut s.root, "/avatar");
        proof {
            lemma_graft_below(e0, path_segments_of(avatar_path()));
        }
        assert("/avatar"@ =~= avatar_path());
        s
    }

    /// Makes sure that `/tracking/vrsystem` exists, so that tracking data is routed to
    /// this application.
    pub fn with_vrchat_tracking_receiver(self) -> (r: Self)
        requires
            self.wf(),
        ensures
            r.wf(),
            r.spec_root()@ == ensured(self.spec_root()@, Seq::empty(), path_segments_of(tracking_path())),
            r.spec_app_name() == self.spec_app_name(),
            r.spec_bind_ip() == self.spec_bind_ip(),
            r.spec_http_port() == self.spec_http_port(),
            r.spec_osc_port() == self.spec_osc_port(),
    {
        proof {
            reveal_strlit("/tracking/vrsystem");
        }
        let mut s = self;
        let ghost e0 = ensured(s.root@, Seq::empty(), path_segments_of(tracking_path()));
        assert("/tracking/vrsystem"@ =~= tracking_path());
        OscNode::ensure_path(&mut s.root, "/tracking/vrsystem");
        proof {
            lemma_graft_below(e0, path_segments_of(tracking_path()));
        }
        assert("/tracking/vrsystem"@ =~= tracking_path());
        s
    }

    pub fn app_name(&self) -> (r: &str)
        ensures
            r@ == self.spec_app_name(),
    {
        self.app_name.as_str()
    }

    pub fn bind_ip(&self) -> (r: IpAddress)
        ensures
            r == self.spec_bind_ip(),
    {
        self.bind_ip
    }

    pub fn http_port(&self) -> (r: u16)
        ensures
            r == self.spec_http_port(),
    {
        self.http_port
    }

    pub fn osc_port(&self) -> (r: u16)
        ensures
            r == self.spec_osc_port(),
    {
        self.osc_port
    }

    pub fn root(&self) -> (r: &OscNode)
        ensures
            *r == self.spec_root(),
    {
        &self.root
    }

    pub fn into_root(self) -> (r: OscNode)
        ensures
            r == self.spec_root(),
    {
        self.root
    }

    /// The host info that the server publishes, given the text of its OSC address.
    pub fn host_info(&self, osc_ip: String) -> (r: HostInfo)
        ensures
            r.name@ == self.spec_app_name(),
            r.osc_ip@ == osc_ip@,
            r.osc_port == self.spec_osc_port(),
            r.osc_transport@ == udp(),
            r.extensions@.len() == 0,
    {
        proof {
            reveal_strlit("UDP");
        }
        let t = String::from_str("UDP");
        assert(t@ =~= udp());
        HostInfo {
            name: self.app_name.clone(),
            osc_ip,
            osc_port: self.osc_port,
            osc_transport: t,
            extensions: Vec::new(),
        }
    }

    /// The records that advertise this server once its HTTP listener is on `http_port`.
    pub fn advertisement(&self, http_port: u16) -> (r: Vec<ServiceRecord>)
        ensures
            advertises(r@, self.spec_app_name(), http_port, self.spec_osc_port()),
    {
        advertisement_records(self.app_name.as_str(), http_port, self.osc_port)
    }
}

} // verus!

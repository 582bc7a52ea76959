//! The status snapshot: what the probes gathered, put together into one
//! response, and the access check in front of it.
use vstd::prelude::*;
use crate::number::Decimal;
use crate::ping::{parse_ping_ms, ping_ms_of};
use crate::speedtest::{parse_speedtest, speedtest_of};
use crate::text::chars_of;
use crate::thermal::{TempData, no_temps, parse_sensors, sensors_of};

verus! {

pub open spec fn digit_char(d: nat) -> char {
    seq!['0', '1', '2', '3', '4', '5', '6', '7', '8', '9'][d as int]
}

/// `n` written in decimal, without leading zeros.
pub open spec fn decimal_text(n: nat) -> Seq<char>
    decreases n,
{
    if n < 10 {
        seq![digit_char(n)]
    } else {
        decimal_text(n / 10).push(digit_char(n % 10))
    }
}

/// An uptime as hours, minutes and seconds: `"{h}h {m}m {s}s"`.
pub open spec fn uptime_of(secs: nat) -> Seq<char> {
    decimal_text(secs / 3600) + "h "@ + decimal_text((secs % 3600) / 60) + "m "@
        + decimal_text(secs % 60) + "s"@
}

/// The one digit `d`, as text.
fn digit_string(d: u64) -> (r: String)
    requires
        d < 10,
    ensures
        r@ == seq![digit_char(d as nat)],
{
    let t = match d {
        0 => "0",
        1 => "1",
        2 => "2",
        3 => "3",
        4 => "4",
        5 => "5",
        6 => "6",
        7 => "7",
        8 => "8",
        _ => "9",
    };
    proof {
        reveal_strlit("0");
        reveal_strlit("1");
        reveal_strlit("2");
        reveal_strlit("3");
        reveal_strlit("4");
        reveal_strlit("5");
        reveal_strlit("6");
        reveal_strlit("7");
        reveal_strlit("8");
        reveal_strlit("9");
    }
    let r = String::from_str(t);
    assert(r@ =~= seq![digit_char(d as nat)]);
    r
}

/// Writes `n` in decimal.
pub fn decimal_string(n: u64) -> (r: String)
    ensures
        r@ == decimal_text(n as nat),
    decreases n,
{
    if n < 10 {
        digit_string(n)
    } else {
        let mut r = decimal_string(n / 10);
        let last = digit_string(n % 10);
        r.append(last.as_str());
        r
    }
}

/// Writes an uptime given in seconds as hours, minutes and seconds.
pub fn format_uptime(secs: u64) -> (r: String)
    ensures
        r@ == uptime_of(secs as nat),
{
    let mut r = decimal_string(secs / 3600);
    r.append("h ");
    r.append(decimal_string((secs % 3600) / 60).as_str());
    r.append("m ");
    r.append(decimal_string(secs % 60).as_str());
    r.append("s");
    r
}

/// The share of memory in use, in percent, to six decimal places (rounded
/// down); absent when the total is zero.
pub open spec fn memory_percentage_of(used: nat, total: nat) -> Option<Decimal> {
    if total == 0 {
        None
    } else {
        Some(
            Decimal {
                negative: false,
                mantissa: (used * 100_000_000 / total) as u128,
                scale: 6,
            },
        )
    }
}

/// The share of memory in use: `used / total * 100`, to six decimal places.
pub fn memory_percentage(used: u64, total: u64) -> (r: Option<Decimal>)
    ensures
        r == memory_percentage_of(used as nat, total as nat),
        r is None <==> total == 0,
        r matches Some(d) ==> d.mantissa * total <= used * 100_000_000 < (d.mantissa + 1)
            * total,
{
    if total == 0 {
        return None;
    }
    let scaled: u128 = used as u128 * 100_000_000;
    let q: u128 = scaled / total as u128;
    assert(q * total <= scaled < (q + 1) * total) by (nonlinear_arith)
        requires
            q == scaled / (total as u128),
            total > 0,
    ;
    Some(Decimal { negative: false, mantissa: q, scale: 6 })
}

/// A number of bytes in GiB (2^30 bytes), to nineteen decimal places
/// (rounded down): far finer than any float that the value is sent as.
pub open spec fn gib_of(bytes: nat) -> Decimal {
    Decimal {
        negative: false,
        mantissa: (bytes * 10_000_000_000_000_000_000 / 1_073_741_824) as u128,
        scale: 19,
    }
}

/// A number of bytes in GiB, to nineteen decimal places.
pub fn to_gib(bytes: u64) -> (r: Decimal)
    ensures
        r == gib_of(bytes as nat),
        r.mantissa * 1_073_741_824 <= bytes * 10_000_000_000_000_000_000 < (r.mantissa + 1)
            * 1_073_741_824,
{
    assert(bytes as nat * 10_000_000_000_000_000_000 <= u128::MAX) by (nonlinear_arith)
        requires
            bytes <= u64::MAX,
    ;
    let scaled: u128 = bytes as u128 * 10_000_000_000_000_000_000;
    let q: u128 = scaled / 1_073_741_824;
    assert(q * 1_073_741_824 <= scaled < (q + 1) * 1_073_741_824) by (nonlinear_arith)
        requires
            q == scaled / 1_073_741_824,
    ;
    Decimal { negative: false, mantissa: q, scale: 19 }
}

/// The public address as the echo service sent it, or `"Unavailable"` when
/// the request failed.
pub fn public_ip_or_unavailable(body: Option<String>) -> (r: String)
    ensures
        match body {
            Some(b) => r@ == b@,
            None => r@ == "Unavailable"@,
        },
{
    match body {
        Some(b) => b,
        None => String::from_str("Unavailable"),
    }
}

/// A network interface and one address of it, as the host reports them.
#[derive(Clone, Debug)]
pub struct NetworkInterface {
    pub name: String,
    pub ip: String,
}

/// The interfaces that the host listed, in its order; none when the listing
/// failed.
pub fn interfaces_or_empty(listing: Option<Vec<NetworkInterface>>) -> (r: Vec<NetworkInterface>)
    ensures
        match listing {
            Some(v) => r@ == v@,
            None => r@.len() == 0,
        },
{
    match listing {
        Some(v) => v,
        None => Vec::new(),
    }
}

/// Whether a request may read the status.
#[derive(Clone, Copy, Debug, PartialEq, Eq, Structural)]
pub enum Access {
    Granted,
    Denied,
}

/// The `Authorization` header that the token admits.
pub open spec fn expected_header(token: Seq<char>) -> Seq<char> {
    "Bearer "@ + token
}

pub open spec fn access_of(header: Option<Seq<char>>, token: Seq<char>) -> Access {
    match header {
        Some(h) if h == expected_header(token) => Access::Granted,
        _ => Access::Denied,
    }
}

pub open spec fn status_code_of(a: Access) -> u16 {
    match a {
        Access::Granted => 200,
        Access::Denied => 401,
    }
}

impl Access {
    /// The HTTP status of the reply: 200 when granted, 401 when denied.
    pub fn status_code(&self) -> (r: u16)
        ensures
            r == status_code_of(*self),
    {
        match self {
            Access::Granted => 200,
            Access::Denied => 401,
        }
    }
}

/// The body of the reply to a denied request.
pub fn denied_body() -> (r: &'static str)
    ensures
        r@ == "Unauthorized"@,
{
    "Unauthorized"
}

fn same_chars(a: &Vec<char>, b: &Vec<char>) -> (r: bool)
    ensures
        r == (a@ == b@),
{
    if a.len() != b.len() {
        return false;
    }
    let mut i: usize = 0;
    while i < a.len()
        invariant
            i <= a.len() == b.len(),
            forall|k: int| 0 <= k < i ==> a@[k] == b@[k],
        decreases a.len() - i,
    {
        if a[i] != b[i] {
            return false;
        }
        i = i + 1;
    }
    assert(a@ =~= b@);
    true
}

/// Checks the `Authorization` header of a request (absent, or not readable
/// as text) against the configured bearer token.
pub fn check_access(header: Option<&str>, token: &str) -> (r: Access)
    ensures
        r == access_of(
            match header {
                Some(h) => Some(h@),
                None => None,
            },
            token@,
        ),
{
    match header {
        Some(h) => {
            let mut expected = chars_of("Bearer ");
            let t = chars_of(token);
            let mut i: usize = 0;
            let ghost start = expected@;
            while i < t.len()
                invariant
                    i <= t.len(),
                    start == "Bearer "@,
                    expected@ == start + t@.take(i as int),
                decreases t.len() - i,
            {
                expected.push(t[i]);
                i = i + 1;
                assert(expected@ =~= start + t@.take(i as int));
            }
            assert(t@.take(t.len() as int) =~= t@);
            if same_chars(&chars_of(h), &expected) {
                Access::Granted
            } else {
                Access::Denied
            }
        },
        None => Access::Denied,
    }
}

/// Every request without the exact header `Bearer <token>` is denied with
/// status 401.
pub proof fn lemma_denied_without_token(header: Option<Seq<char>>, token: Seq<char>)
    requires
        header != Some(expected_header(token)),
    ensures
        access_of(header, token) == Access::Denied,
        status_code_of(access_of(header, token)) == 401,
{
}

/// A request with the exact header `Bearer <token>` is granted with status 200.
pub proof fn lemma_granted_with_token(token: Seq<char>)
    ensures
        access_of(Some(expected_header(token)), token) == Access::Granted,
        status_code_of(access_of(Some(expected_header(token)), token)) == 200,
{
}

/// What the host and the tools reported for one request, as plain values;
/// `None` where the query or the tool failed.
pub struct ProbeResults {
    pub uptime_secs: u64,
    pub host_name: Option<String>,
    pub cpu_brand: Option<String>,
    pub os_name: Option<String>,
    pub total_memory: u64,
    pub used_memory: u64,
    pub public_ip_body: Option<String>,
    pub ping_output: Option<String>,
    pub speedtest_output: Option<String>,
    pub sensors_output: Option<String>,
    pub interfaces: Option<Vec<NetworkInterface>>,
}

/// Identity of the host.
#[derive(Clone, Debug)]
pub struct ServerData {
    pub server_name: Option<String>,
    pub server_cpu: String,
    pub server_os: Option<String>,
}

/// Memory and temperatures; the CPU load, a float, is added where the
/// snapshot is sent.
#[derive(Clone, Debug)]
pub struct UsageData {
    pub memory: Decimal,
    pub total_memory: Decimal,
    pub memory_percentage: Option<Decimal>,
    pub temps: TempData,
}

/// Network identity and link quality.
#[derive(Clone, Debug)]
pub struct NetworkData {
    pub public_ip: String,
    pub ping_ms: Option<Decimal>,
    pub speed_download_mbps: Option<Decimal>,
    pub speed_upload_mbps: Option<Decimal>,
    pub interfaces: Vec<NetworkInterface>,
}

/// The status reply for one request.
#[derive(Clone, Debug)]
pub struct StatusSnapshot {
    pub server_status: String,
    pub server_uptime: String,
    pub server_data: ServerData,
    pub data: UsageData,
    pub network: NetworkData,
}

pub open spec fn opt_view(o: Option<String>) -> Option<Seq<char>> {
    match o {
        Some(s) => Some(s@),
        None => None,
    }
}

/// The snapshot `s` is the one that the probe results `p` give: a tool
/// that did not run counts as one that printed nothing.
pub open spec fn snapshot_of(p: ProbeResults, s: StatusSnapshot) -> bool {
    let ping = match p.ping_output {
        Some(o) => ping_ms_of(o@),
        None => None,
    };
    let speed = match p.speedtest_output {
        Some(o) => speedtest_of(o@),
        None => None,
    };
    &&& s.server_status@ == "online"@
    &&& s.server_uptime@ == uptime_of(p.uptime_secs as nat)
    &&& opt_view(s.server_data.server_name) == opt_view(p.host_name)
    &&& s.server_data.server_cpu@ == match p.cpu_brand {
        Some(b) => b@,
        None => Seq::empty(),
    }
    &&& opt_view(s.server_data.server_os) == opt_view(p.os_name)
    &&& s.data.memory == gib_of(p.used_memory as nat)
    &&& s.data.total_memory == gib_of(p.total_memory as nat)
    &&& s.data.memory_percentage == memory_percentage_of(
        p.used_memory as nat,
        p.total_memory as nat,
    )
    &&& s.data.temps == match p.sensors_output {
        Some(o) => sensors_of(o@),
        None => no_temps(),
    }
    &&& s.network.public_ip@ == match p.public_ip_body {
        Some(b) => b@,
        None => "Unavailable"@,
    }
    &&& s.network.ping_ms == ping
    &&& s.network.speed_download_mbps == match speed {
        Some(r) => Some(r.0),
        None => None,
    }
    &&& s.network.speed_upload_mbps == match speed {
        Some(r) => Some(r.1),
        None => None,
    }
    &&& s.network.interfaces@ == match p.interfaces {
        Some(v) => v@,
        None => Seq::empty(),
    }
}

/// Puts the probe results of one request together into its snapshot.
pub fn build_snapshot(p: ProbeResults) -> (s: StatusSnapshot)
    ensures
        snapshot_of(p, s),
{
    let ghost g = p;
    let ping_ms = match &p.ping_output {
        Some(o) => parse_ping_ms(o.as_str()),
        None => None,
    };
    let (speed_download_mbps, speed_upload_mbps) = match &p.speedtest_output {
        Some(o) => match parse_speedtest(o.as_str()) {
            Some((d, u)) => (Some(d), Some(u)),
            None => (None, None),
        },
        None => (None, None),
    };
    let temps = match &p.sensors_output {
        Some(o) => parse_sensors(o.as_str()),
        None => TempData { motherboard_temp: None, cpu_temp: None, gpu_temp: None },
    };
    let server_cpu = match p.cpu_brand {
        Some(b) => b,
        None => String::new(),
    };
    let s = StatusSnapshot {
        server_status: String::from_str("online"),
        server_uptime: format_uptime(p.uptime_secs),
        server_data: ServerData { server_name: p.host_name, server_cpu, server_os: p.os_name },
        data: UsageData {
            memory: to_gib(p.used_memory),
            total_memory: to_gib(p.total_memory),
            memory_percentage: memory_percentage(p.used_memory, p.total_memory),
            temps,
        },
        network: NetworkData {
            public_ip: public_ip_or_unavailable(p.public_ip_body),
            ping_ms,
            speed_download_mbps,
            speed_upload_mbps,
            interfaces: interfaces_or_empty(p.interfaces),
        },
    };
    assert(s.server_data.server_cpu@ == match g.cpu_brand { Some(b) => b@, None => Seq::empty() });
    assert(s.network.interfaces@ == match g.interfaces { Some(v) => v@, None => Seq::empty() });
    s
}

/// The download and upload rates of a snapshot are both present or both
/// absent.
pub proof fn lemma_rates_joint(p: ProbeResults, s: StatusSnapshot)
    requires
        snapshot_of(p, s),
    ensures
        s.network.speed_download_mbps is Some <==> s.network.speed_upload_mbps is Some,
{
}

/// When the host listed its interfaces, the snapshot holds as many entries
/// as the host reported, in its order, each with the same name and address
/// text.
pub proof fn lemma_interfaces_as_listed(p: ProbeResults, s: StatusSnapshot, listed: Vec<NetworkInterface>)
    requires
        p.interfaces == Some(listed),
        snapshot_of(p, s),
    ensures
        s.network.interfaces.len() == listed.len(),
        forall|i: int|
            0 <= i < listed.len() ==> #[trigger] s.network.interfaces[i].name@ == listed[i].name@
                && s.network.interfaces[i].ip@ == listed[i].ip@,
{
}

/// With every tool and query failing, the snapshot is still made: online,
/// with the sentinel address, no readings and no interfaces.
pub proof fn lemma_all_probes_failed(p: ProbeResults, s: StatusSnapshot)
    requires
        p.host_name is None,
        p.cpu_brand is None,
        p.os_name is None,
        p.public_ip_body is None,
        p.ping_output is None,
        p.speedtest_output is None,
        p.sensors_output is None,
        p.interfaces is None,
        snapshot_of(p, s),
    ensures
        s.server_status@ == "online"@,
        s.server_data.server_name is None,
        s.server_data.server_cpu@.len() == 0,
        s.server_data.server_os is None,
        s.data.temps == no_temps(),
        s.network.public_ip@ == "Unavailable"@,
        s.network.ping_ms is None,
        s.network.speed_download_mbps is None,
        s.network.speed_upload_mbps is None,
        s.network.interfaces@.len() == 0,
{
}

} // verus!

use vstd::prelude::*;
use vstd::utf8::{valid_utf8, decode_utf8};
use crate::error::PtpIpError;
use crate::stream::append_bytes;
use crate::text::{trim_where, lemma_trim_start, lemma_trim_end};
use crate::transport::{be_u16_bytes, be_u32_bytes, u16_at, u32_at, u16_field, u32_field};
use crate::types::DiscoveredCamera;
use crate::utils::be_bytes;

verus! {

/// UDP port of PTP/IP discovery.
pub const PTPIP_DISCOVERY_PORT: u16 = 1900;

/// Broadcast address of discovery requests.
pub const PTPIP_BROADCAST_ADDR: &'static str = "255.255.255.255:1900";

/// Multicast (SSDP) address of discovery requests.
pub const PTPIP_MULTICAST_ADDR: &'static str = "239.255.255.250:1900";

/// Discovery message types.
#[derive(Debug, PartialEq, Eq, Clone, Copy, Structural)]
pub enum PtpIpMessageType {
    DiscoveryRequest,
    DiscoveryResponse,
}

impl PtpIpMessageType {
    /// The wire code of this message type.
    pub fn as_u16(&self) -> (r: u16)
        ensures
            r == match *self {
                PtpIpMessageType::DiscoveryRequest => 1u16,
                PtpIpMessageType::DiscoveryResponse => 2u16,
            },
    {
        match self {
            PtpIpMessageType::DiscoveryRequest => 0x0001,
            PtpIpMessageType::DiscoveryResponse => 0x0002,
        }
    }
}

/// The sender of a datagram: an IPv4 or IPv6 address (as its octets) and a port.
#[derive(Debug, Clone, Copy)]
pub enum SourceAddr {
    V4 { ip: [u8; 4], port: u16 },
    V6 { octets: [u8; 16], port: u16 },
}

/// Whether two arrays of four octets are equal.
pub fn same_ip4(a: &[u8; 4], b: &[u8; 4]) -> (r: bool)
    ensures
        r == (a@ == b@),
{
    let mut k: usize = 0;
    while k < 4
        invariant
            k <= 4,
            forall|j: int| 0 <= j < k ==> a@[j] == b@[j],
        decreases 4 - k,
    {
        if a[k] != b[k] {
            return false;
        }
        k = k + 1;
    }
    assert(a@ =~= b@);
    true
}

/// Whether two arrays of sixteen octets are equal.
fn same_ip6(a: &[u8; 16], b: &[u8; 16]) -> (r: bool)
    ensures
        r == (a@ == b@),
{
    let mut k: usize = 0;
    while k < 16
        invariant
            k <= 16,
            forall|j: int| 0 <= j < k ==> a@[j] == b@[j],
        decreases 16 - k,
    {
        if a[k] != b[k] {
            return false;
        }
        k = k + 1;
    }
    assert(a@ =~= b@);
    true
}

/// Whether two senders are the same address and port.
pub fn same_source(a: &SourceAddr, b: &SourceAddr) -> (r: bool)
    ensures
        r == (*a == *b),
{
    match (a, b) {
        (SourceAddr::V4 { ip: i1, port: p1 }, SourceAddr::V4 { ip: i2, port: p2 }) => {
            let same = same_ip4(i1, i2) && *p1 == *p2;
            proof {
                if i1@ == i2@ {
                    assert(*i1 =~= *i2);
                }
            }
            same
        },
        (SourceAddr::V6 { octets: i1, port: p1 }, SourceAddr::V6 { octets: i2, port: p2 }) => {
            let same = same_ip6(i1, i2) && *p1 == *p2;
            proof {
                if i1@ == i2@ {
                    assert(*i1 =~= *i2);
                }
            }
            same
        },
        _ => false,
    }
}

/// A discovery request: message type 1, protocol version 1.0 (0x0100), and a
/// reserved 32-bit zero.
pub fn build_discovery_request() -> (r: Vec<u8>)
    ensures
        r@ == be_bytes(1, 2) + be_bytes(0x0100, 2) + be_bytes(0, 4),
{
    let mut packet: Vec<u8> = Vec::new();
    append_bytes(&mut packet, &be_u16_bytes(PtpIpMessageType::DiscoveryRequest.as_u16()));
    append_bytes(&mut packet, &be_u16_bytes(0x0100));
    append_bytes(&mut packet, &be_u32_bytes(0));
    packet
}

/// The characters that `String::from_utf8_lossy` decodes from `bytes` (invalid
/// sequences become U+FFFD).
pub uninterp spec fn utf8_lossy_of(bytes: Seq<u8>) -> Seq<char>;

/// Decodes bytes as UTF-8 with `String::from_utf8_lossy`; valid UTF-8 decodes
/// exactly, as std documents.
#[verifier::external_body]
fn utf8_lossy(bytes: &[u8]) -> (r: String)
    ensures
        r@ == utf8_lossy_of(bytes@),
        valid_utf8(bytes@) ==> r@ == decode_utf8(bytes@),
{
    String::from_utf8_lossy(bytes).into_owned()
}

/// `s` without leading and trailing NUL characters, as `str::trim_matches('\0')` gives it.
pub open spec fn trim_nul(s: Seq<char>) -> Seq<char> {
    trim_where(s, |c: char| c == '\0')
}

/// `s` without leading and trailing NUL characters.
pub fn trim_nul_chars(s: &str) -> (r: String)
    ensures
        r@ == trim_nul(s@),
{
    let n = s.unicode_len();
    let mut start: usize = 0;
    while start < n && s.get_char(start) == '\0'
        invariant
            start <= n,
            n == s@.len(),
            forall|i: int| 0 <= i < start ==> #[trigger] s@[i] == '\0',
        decreases n - start,
    {
        start = start + 1;
    }
    let mut end: usize = n;
    while end > start && s.get_char(end - 1) == '\0'
        invariant
            start <= end <= n,
            n == s@.len(),
            forall|i: int| end <= i < n ==> #[trigger] s@[i] == '\0',
        decreases end,
    {
        end = end - 1;
    }
    proof {
        let t = s@;
        let nul = |c: char| c == '\0';
        lemma_trim_start(t, nul, start as int);
        let u = t.skip(start as int);
        assert forall|k: int| end - start <= k < u.len() implies nul(#[trigger] u[k]) by {
            assert(u[k] == t[start + k]);
        }
        if end > start {
            assert(u[end - start - 1] == t[end - 1]);
        }
        lemma_trim_end(u, nul, end - start);
        assert(u.take(end - start) =~= t.subrange(start as int, end as int));
    }
    String::from_str(s.substring_char(start, end))
}

/// What a discovery response says: a response of version 1.0 at least 14 bytes
/// long, from an IPv4 sender, names a camera.
pub open spec fn response_names_camera(buffer: Seq<u8>, src: SourceAddr) -> bool {
    &&& buffer.len() >= 14
    &&& u16_at(buffer, 0) == 2
    &&& u16_at(buffer, 2) == 0x0100
    &&& src is V4
}

/// The camera that a discovery response from `src` names: the sender's IPv4
/// address; the port, vendor extension id and version read from the response; and
/// the model name from offset 14, decoded with replacement and cut of surrounding NULs.
pub open spec fn is_camera_of(c: DiscoveredCamera, buffer: Seq<u8>, src: SourceAddr) -> bool {
    &&& src matches SourceAddr::V4 { ip, .. } && c.ip_address@ == ip@
    &&& c.port as nat == u16_at(buffer, 10)
    &&& c.vendor_extension_id as nat == u32_at(buffer, 4)
    &&& c.vendor_extension_version as nat == u16_at(buffer, 8)
    &&& c.model_name@ == trim_nul(utf8_lossy_of(buffer.skip(14)))
    &&& valid_utf8(buffer.skip(14)) ==> c.model_name@ == trim_nul(decode_utf8(buffer.skip(14)))
}

/// A discovery response from an IPv4 sender, written big-endian — type 2, version
/// 1.0, the vendor extension id (32-bit), its version and the port (16-bit each) —
/// gives a camera at the sender's address with exactly the values written.
pub proof fn lemma_discovery_response_reads_written(
    buffer: Seq<u8>,
    ip: [u8; 4],
    sender_port: u16,
    c: DiscoveredCamera,
    vendor_extension_id: u32,
    vendor_extension_version: u16,
    port: u16,
)
    requires
        buffer.len() >= 14,
        buffer.subrange(0, 2) == be_bytes(2, 2),
        buffer.subrange(2, 4) == be_bytes(0x0100, 2),
        buffer.subrange(4, 8) == be_bytes(vendor_extension_id as nat, 4),
        buffer.subrange(8, 10) == be_bytes(vendor_extension_version as nat, 2),
        buffer.subrange(10, 12) == be_bytes(port as nat, 2),
        is_camera_of(c, buffer, SourceAddr::V4 { ip, port: sender_port }),
    ensures
        response_names_camera(buffer, SourceAddr::V4 { ip, port: sender_port }),
        c.ip_address@ == ip@,
        c.port == port,
        c.vendor_extension_id == vendor_extension_id,
        c.vendor_extension_version == vendor_extension_version,
{
    reveal_with_fuel(crate::utils::pow256, 5);
    crate::transport::lemma_field_value(buffer, 0, 2, 2);
    crate::transport::lemma_field_value(buffer, 2, 0x0100, 2);
    crate::transport::lemma_field_value(buffer, 4, vendor_extension_id as nat, 4);
    crate::transport::lemma_field_value(buffer, 8, vendor_extension_version as nat, 2);
    crate::transport::lemma_field_value(buffer, 10, port as nat, 2);
}

/// Parses a discovery response from `src_addr`: after the message type (2) and
/// version (1.0), the vendor extension id (32-bit), its version and the camera's
/// port (16-bit each); the model name fills the bytes from offset 14, decoded as
/// UTF-8 with replacement and cut of surrounding NULs. Anything else — too short,
/// another type or version, an IPv6 sender — is no camera.
pub fn parse_discovery_response(buffer: &[u8], src_addr: SourceAddr) -> (r: Result<
    Option<DiscoveredCamera>,
    PtpIpError,
>)
    ensures
        !response_names_camera(buffer@, src_addr) ==> r matches Ok(None),
        response_names_camera(buffer@, src_addr) ==> (r matches Ok(Some(c)) && is_camera_of(
            c,
            buffer@,
            src_addr,
        )),
{
    if buffer.len() < 14 {
        return Ok(None);
    }
    let message_type = u16_field(buffer, 0);
    if message_type != 0x0002 {
        return Ok(None);
    }
    let version = u16_field(buffer, 2);
    if version != 0x0100 {
        return Ok(None);
    }
    let vendor_extension_id = u32_field(buffer, 4);
    let vendor_extension_version = u16_field(buffer, 8);
    let port = u16_field(buffer, 10);
    let name_bytes = &buffer[14..buffer.len()];
    let decoded = utf8_lossy(name_bytes);
    let model_name = trim_nul_chars(decoded.as_str());
    let ip_address = match src_addr {
        SourceAddr::V4 { ip, .. } => ip,
        SourceAddr::V6 { .. } => {
            return Ok(None);
        },
    };
    proof {
        assert(name_bytes@ =~= buffer@.skip(14));
    }
    Ok(
        Some(
            DiscoveredCamera {
                ip_address,
                port,
                model_name,
                vendor_extension_id,
                vendor_extension_version,
            },
        ),
    )
}

/// The addresses that discovery requests go to: the test destinations when given;
/// otherwise the broadcast address, and the multicast address when multicast is used.
/// An address is four octets and a port.
pub fn get_discovery_destinations(
    use_multicast: bool,
    test_destinations: &Option<Vec<([u8; 4], u16)>>,
) -> (r: Vec<([u8; 4], u16)>)
    ensures
        test_destinations matches Some(d) ==> r@ == d@,
        test_destinations is None && use_multicast ==> r@ == seq![
            ([255u8, 255u8, 255u8, 255u8], 1900u16),
            ([239u8, 255u8, 255u8, 250u8], 1900u16),
        ],
        test_destinations is None && !use_multicast ==> r@ == seq![
            ([255u8, 255u8, 255u8, 255u8], 1900u16),
        ],
{
    match test_destinations {
        Some(d) => {
            let mut out: Vec<([u8; 4], u16)> = Vec::new();
            let mut i: usize = 0;
            while i < d.len()
                invariant
                    i <= d@.len(),
                    out@ == d@.take(i as int),
                decreases d@.len() - i,
            {
                out.push(d[i]);
                i = i + 1;
                assert(out@ =~= d@.take(i as int));
            }
            assert(out@ =~= d@);
            out
        },
        None => {
            let mut out: Vec<([u8; 4], u16)> = Vec::new();
            out.push(([255u8, 255u8, 255u8, 255u8], 1900u16));
            if use_multicast {
                out.push(([239u8, 255u8, 255u8, 250u8], 1900u16));
            }
            out
        },
    }
}

/// Some camera of the list has this address and port.
pub open spec fn has_camera_at(cameras: Seq<DiscoveredCamera>, ip: Seq<u8>, port: u16) -> bool {
    exists|i: int| 0 <= i < cameras.len() && #[trigger] cameras[i].ip_address@ == ip && cameras[i].port == port
}

/// No two cameras of the list share an address and port.
pub open spec fn distinct_cameras(cameras: Seq<DiscoveredCamera>) -> bool {
    forall|i: int, j: int|
        0 <= i < j < cameras.len() ==> !(#[trigger] cameras[i].ip_address@ == #[trigger] cameras[j].ip_address@
            && cameras[i].port == cameras[j].port)
}

/// The most cameras one discovery collects.
pub const MAX_DISCOVERED_CAMERAS: usize = 10;

/// What a discovery has collected: the cameras found, without two at one address
/// and port, and the senders already answered for (a sender's later responses are
/// ignored).
pub struct DiscoveryState {
    pub cameras: Vec<DiscoveredCamera>,
    pub seen: Vec<SourceAddr>,
}

impl DiscoveryState {
    /// A discovery that has found nothing yet.
    pub fn new() -> (r: DiscoveryState)
        ensures
            r.cameras@.len() == 0,
            r.seen@.len() == 0,
            discovery_wf(r),
    {
        DiscoveryState { cameras: Vec::new(), seen: Vec::new() }
    }

    /// Whether the discovery still takes responses: it has fewer than
    /// `MAX_DISCOVERED_CAMERAS` cameras.
    pub fn wants_more(&self) -> (r: bool)
        ensures
            r == (self.cameras@.len() < MAX_DISCOVERED_CAMERAS),
    {
        self.cameras.len() < MAX_DISCOVERED_CAMERAS
    }

    /// Whether `src` already sent a response.
    pub fn has_seen(&self, src: &SourceAddr) -> (r: bool)
        ensures
            r == self.seen@.contains(*src),
    {
        let mut i: usize = 0;
        while i < self.seen.len()
            invariant
                i <= self.seen@.len(),
                forall|j: int| 0 <= j < i ==> self.seen@[j] != *src,
            decreases self.seen@.len() - i,
        {
            if same_source(&self.seen[i], src) {
                return true;
            }
            i = i + 1;
        }
        false
    }

    /// Whether a camera at this address and port was already found.
    pub fn has_camera(&self, ip: &[u8; 4], port: u16) -> (r: bool)
        ensures
            r == has_camera_at(self.cameras@, ip@, port),
    {
        let mut i: usize = 0;
        while i < self.cameras.len()
            invariant
                i <= self.cameras@.len(),
                forall|j: int|
                    0 <= j < i ==> !(#[trigger] self.cameras@[j].ip_address@ == ip@
                        && self.cameras@[j].port == port),
            decreases self.cameras@.len() - i,
        {
            if same_ip4(&self.cameras[i].ip_address, ip) && self.cameras[i].port == port {
                return true;
            }
            i = i + 1;
        }
        false
    }

    /// Takes the response `buffer` from `src` (see `accepts`).
    pub fn accept_response(&mut self, buffer: &[u8], src: SourceAddr)
        ensures
            accepts(*old(self), *final(self), buffer@, src),
            discovery_wf(*old(self)) ==> discovery_wf(*final(self)),
    {
        if self.cameras.len() >= MAX_DISCOVERED_CAMERAS {
            return;
        }
        if self.has_seen(&src) {
            return;
        }
        self.seen.push(src);
        match parse_discovery_response(buffer, src) {
            Ok(Some(camera)) => {
                if !self.has_camera(&camera.ip_address, camera.port) {
                    let ghost before = self.cameras@;
                    self.cameras.push(camera);
                    assert(self.cameras@.drop_last() =~= old(self).cameras@);
                    assert forall|i: int, j: int|
                        0 <= i < j < self.cameras@.len() && distinct_cameras(before) implies !(
                    #[trigger] self.cameras@[i].ip_address@ == #[trigger] self.cameras@[j].ip_address@
                        && self.cameras@[i].port == self.cameras@[j].port) by {
                        if j == before.len() {
                            assert(self.cameras@[i] == before[i]);
                        } else {
                            assert(self.cameras@[i] == before[i]);
                            assert(self.cameras@[j] == before[j]);
                        }
                    }
                }
            },
            _ => {},
        }
    }

    /// What the discovery does next within an attempt, `elapsed_nanos` after it
    /// started, with a time limit of `timeout_nanos`: it ends the attempt once the
    /// time is up or it holds `MAX_DISCOVERED_CAMERAS` cameras, and otherwise
    /// receives another response.
    pub fn next_action(&self, elapsed_nanos: u128, timeout_nanos: u128) -> (r: DiscoveryAction)
        ensures
            r == (if elapsed_nanos > timeout_nanos || self.cameras@.len() >= MAX_DISCOVERED_CAMERAS {
                DiscoveryAction::EndAttempt
            } else {
                DiscoveryAction::Receive
            }),
    {
        if elapsed_nanos > timeout_nanos || self.cameras.len() >= MAX_DISCOVERED_CAMERAS {
            DiscoveryAction::EndAttempt
        } else {
            DiscoveryAction::Receive
        }
    }

    /// Takes what a receive gave and says whether to keep receiving: a response is
    /// taken (see `accepts`) and receiving goes on; a quiet socket ends the attempt;
    /// another receive failure is passed over.
    pub fn on_event(&mut self, event: DiscoveryEvent) -> (keep: bool)
        ensures
            match event {
                DiscoveryEvent::Response { data, src } => keep && accepts(
                    *old(self),
                    *final(self),
                    data@,
                    src,
                ),
                DiscoveryEvent::Quiet => !keep && final(self).cameras@ == old(self).cameras@
                    && final(self).seen@ == old(self).seen@,
                DiscoveryEvent::Failed => keep && final(self).cameras@ == old(self).cameras@
                    && final(self).seen@ == old(self).seen@,
            },
            discovery_wf(*old(self)) ==> discovery_wf(*final(self)),
    {
        match event {
            DiscoveryEvent::Response { data, src } => {
                self.accept_response(data.as_slice(), src);
                true
            },
            DiscoveryEvent::Quiet => false,
            DiscoveryEvent::Failed => true,
        }
    }

    /// The pause after attempt `attempt` of `retry_count`: none after the last; a
    /// short one (500 ms) when cameras were found; otherwise half the time limit.
    pub fn pause_after_attempt(&self, attempt: usize, retry_count: usize) -> (r: AttemptPause)
        ensures
            r == (if attempt >= retry_count {
                AttemptPause::NoPause
            } else if self.cameras@.len() > 0 {
                AttemptPause::Millis(500)
            } else {
                AttemptPause::HalfTimeout
            }),
    {
        if attempt >= retry_count {
            AttemptPause::NoPause
        } else if self.cameras.len() > 0 {
            AttemptPause::Millis(500)
        } else {
            AttemptPause::HalfTimeout
        }
    }
}

/// A response from `src` is taken into the discovery: it holds fewer than
/// `MAX_DISCOVERED_CAMERAS` cameras and `src` sent nothing before.
pub open spec fn takes_from(state: DiscoveryState, src: SourceAddr) -> bool {
    state.cameras@.len() < MAX_DISCOVERED_CAMERAS && !state.seen@.contains(src)
}

/// A response taken into the discovery adds a camera: it names one, at an address
/// and port not found yet.
pub open spec fn adds_camera(state: DiscoveryState, buffer: Seq<u8>, src: SourceAddr) -> bool {
    &&& takes_from(state, src)
    &&& response_names_camera(buffer, src)
    &&& !(src matches SourceAddr::V4 { ip, .. } && has_camera_at(
        state.cameras@,
        ip@,
        u16_at(buffer, 10) as u16,
    ))
}

/// What taking the response `buffer` from `src` does to a discovery: when it is
/// full, or `src` was heard from, nothing; otherwise `src` is recorded, and a
/// response that names a camera at a new address and port adds that camera.
pub open spec fn accepts(before: DiscoveryState, after: DiscoveryState, buffer: Seq<u8>, src: SourceAddr) -> bool {
    &&& !takes_from(before, src) ==> after.seen@ == before.seen@
    &&& takes_from(before, src) ==> after.seen@ == before.seen@.push(src)
    &&& adds_camera(before, buffer, src) ==> {
        &&& after.cameras@.len() == before.cameras@.len() + 1
        &&& after.cameras@.drop_last() == before.cameras@
        &&& is_camera_of(after.cameras@.last(), buffer, src)
    }
    &&& !adds_camera(before, buffer, src) ==> after.cameras@ == before.cameras@
}

/// What a discovery keeps: no two cameras at one address and port, no sender
/// recorded twice, and at most `MAX_DISCOVERED_CAMERAS` cameras.
pub open spec fn discovery_wf(state: DiscoveryState) -> bool {
    &&& distinct_cameras(state.cameras@)
    &&& state.seen@.no_duplicates()
    &&& state.cameras@.len() <= MAX_DISCOVERED_CAMERAS
}

/// What a receive on the discovery socket gave.
pub enum DiscoveryEvent {
    /// A datagram `data` from `src`.
    Response { data: Vec<u8>, src: SourceAddr },
    /// Nothing arrived in time (the receive would block or timed out).
    Quiet,
    /// The receive failed otherwise.
    Failed,
}

/// What a discovery does next within an attempt.
#[derive(Debug, PartialEq, Eq, Clone, Copy, Structural)]
pub enum DiscoveryAction {
    /// Receive another response.
    Receive,
    /// End this attempt.
    EndAttempt,
}

/// The pause after a discovery attempt.
#[derive(Debug, PartialEq, Eq, Clone, Copy, Structural)]
pub enum AttemptPause {
    /// No pause: it was the last attempt.
    NoPause,
    /// A pause of this many milliseconds.
    Millis(u64),
    /// A pause of half the time limit.
    HalfTimeout,
}

} // verus!

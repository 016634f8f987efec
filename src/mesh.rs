//! Mesh telemetry: a registry of the devices of a wireless mesh, kept up to
//! date from the network-statistics and GPIO pushes they send, bare or wrapped
//! in a notify envelope.

use vstd::prelude::*;
use std::collections::HashMap;
use crate::hexstr::{encode_hex, hex_lower};

verus! {

broadcast use vstd::std_specs::hash::group_hash_axioms;

/// Request for the coordinator's configuration.
pub const MSG_TYPE_REQ_CONFIG: u8 = 0x00;

/// Answer to a configuration request.
pub const MSG_TYPE_RES_CONFIG: u8 = 0x20;

/// Flag of the push message types.
pub const MSG_TYPE_PUSH: u8 = 0x40;

/// Push of a device's network statistics.
pub const MSG_TYPE_PUSH_NETSTAT: u8 = 0x41;

/// Push of a device's GPIO state.
pub const MSG_TYPE_PUSH_GPIO: u8 = 0x42;

/// Notify envelope, broadcast only.
pub const MSG_TYPE_NOTIFY: u8 = 0x7E;

/// Statistics bytes of a network-statistics push.
pub const STAT_SIZE: usize = 13;

/// A network-statistics record: the statistics, then the next hop's address.
pub const NETSTAT_LEN: usize = 19;

/// Second statistics byte of the coordinator, which has no next hop.
pub const COORDINATOR_MARK: u8 = 0xFF;

/// A push identifier this far or more below the last one counts as a counter
/// that wrapped round.
pub const PUSH_ID_WINDOW: u16 = 100;

/// Header of a notify envelope: its type and the sender's address.
pub const NOTIFY_HEADER_LEN: usize = 7;

/// A device address, the six octets read as one big-endian number.
#[derive(Clone, Copy, Debug, PartialEq, Eq, Structural, Hash)]
pub struct MacAddr(pub u64);

/// Six octets read as one big-endian number.
pub open spec fn mac_key(o: Seq<u8>) -> u64 {
    (o[0] as int * 0x100_0000_0000 + o[1] as int * 0x1_0000_0000 + o[2] as int * 0x100_0000
        + o[3] as int * 0x1_0000 + o[4] as int * 0x100 + o[5] as int) as u64
}

/// The address held in the last six bytes of `s`.
pub open spec fn tail_mac(s: Seq<u8>) -> MacAddr {
    MacAddr(mac_key(s.subrange(s.len() - 6, s.len() as int)))
}

/// The six octets of an address, most significant first.
pub open spec fn mac_octets(m: MacAddr) -> Seq<u8> {
    seq![
        ((m.0 / 0x100_0000_0000) % 256) as u8,
        ((m.0 / 0x1_0000_0000) % 256) as u8,
        ((m.0 / 0x100_0000) % 256) as u8,
        ((m.0 / 0x1_0000) % 256) as u8,
        ((m.0 / 0x100) % 256) as u8,
        (m.0 % 256) as u8,
    ]
}

/// The name of a known device.
pub open spec fn alias_of(key: u64) -> Option<Seq<char>> {
    if key == 0x6867254e3ff0 {
        Some("First Repeater"@)
    } else if key == 0x7cdfa1dee298 {
        Some("Led Repeater"@)
    } else if key == 0x6867254d6258 {
        Some("R.Build Room"@)
    } else if key == 0x6867254f88f8 {
        Some("R.ESP.Support"@)
    } else if key == 0x6867254eed84 {
        Some("Red Repeater"@)
    } else if key == 0x7cdfa1dee03c {
        Some("Support Exit"@)
    } else if key == 0xa0764ead1d30 {
        Some("COORDINATOR"@)
    } else {
        None
    }
}

/// How an address is shown: the device's name when it is known, else its
/// octets in hex.
pub open spec fn mac_name(m: MacAddr) -> Seq<char> {
    match alias_of(m.0) {
        Some(name) => name,
        None => hex_lower(mac_octets(m)),
    }
}

fn alias(key: u64) -> (r: Option<&'static str>)
    ensures
        match r {
            Some(s) => alias_of(key) == Some(s@),
            None => alias_of(key) is None,
        },
{
    if key == 0x6867254e3ff0 {
        Some("First Repeater")
    } else if key == 0x7cdfa1dee298 {
        Some("Led Repeater")
    } else if key == 0x6867254d6258 {
        Some("R.Build Room")
    } else if key == 0x6867254f88f8 {
        Some("R.ESP.Support")
    } else if key == 0x6867254eed84 {
        Some("Red Repeater")
    } else if key == 0x7cdfa1dee03c {
        Some("Support Exit")
    } else if key == 0xa0764ead1d30 {
        Some("COORDINATOR")
    } else {
        None
    }
}

impl MacAddr {
    /// The number holds six octets and no more.
    pub open spec fn wf(self) -> bool {
        self.0 < 0x1_0000_0000_0000
    }

    /// Whether the number holds six octets and no more.
    pub fn is_valid(&self) -> (r: bool)
        ensures
            r == self.wf(),
    {
        self.0 < 0x1_0000_0000_0000
    }

    /// The address held in the last six bytes of `data`.
    pub fn from_tail(data: &[u8]) -> (r: MacAddr)
        requires
            data@.len() >= 6,
        ensures
            r == tail_mac(data@),
            r.wf(),
    {
        let n = data.len();
        let k: u64 = data[n - 6] as u64 * 0x100_0000_0000 + data[n - 5] as u64 * 0x1_0000_0000
            + data[n - 4] as u64 * 0x100_0000 + data[n - 3] as u64 * 0x1_0000 + data[n - 2] as u64
            * 0x100 + data[n - 1] as u64;
        MacAddr(k)
    }

    /// The six octets, most significant first.
    pub fn octets(&self) -> (r: Vec<u8>)
        ensures
            r@ == mac_octets(*self),
    {
        let k = self.0;
        let r = vec![
            ((k / 0x100_0000_0000) % 256) as u8,
            ((k / 0x1_0000_0000) % 256) as u8,
            ((k / 0x100_0000) % 256) as u8,
            ((k / 0x1_0000) % 256) as u8,
            ((k / 0x100) % 256) as u8,
            (k % 256) as u8,
        ];
        proof {
            assert(r@ =~= mac_octets(*self));
        }
        r
    }

    /// The device's name when it is known, else its octets in lowercase hex.
    pub fn name(&self) -> (r: String)
        requires
            self.wf(),
        ensures
            r@ == mac_name(*self),
    {
        match alias(self.0) {
            Some(s) => s.to_owned(),
            None => {
                let o = self.octets();
                encode_hex(o.as_slice())
            },
        }
    }
}

/// Whether a severity is worth a line in the log, and at which level.
#[derive(Clone, Copy, Debug, PartialEq, Eq, Structural)]
pub enum Level {
    Silent,
    Info,
    Warn,
    Error,
}

/// What one network-statistics record revealed.
#[derive(Clone, Copy, Debug, PartialEq, Eq, Structural)]
pub struct NetstatReport {
    /// The sender is the coordinator.
    pub coordinator: bool,
    /// The next hop differs from the one recorded before; the signal
    /// statistics were reset.
    pub hop_changed: bool,
    /// Statistics records missed since the last one.
    pub skipped: u16,
    /// How loud the missed records are.
    pub skip_level: Level,
    /// How loud the summary of the device is.
    pub summary_level: Level,
}

/// All that is known of one device of the mesh.
#[derive(Clone, Copy, Debug)]
pub struct EspDevice {
    pub addr: MacAddr,
    pub net_stat_ts: u16,
    pub last_push_id: u16,
    /// When the device was last heard from, in microseconds of the decoder's
    /// clock.
    pub last_seen: u64,
    /// Microseconds between the last two pushes.
    pub last_seen_gap: u64,
    pub next_node: Option<MacAddr>,
    pub total_resent: u32,
    pub total_sent: u32,
    pub total_failed: u32,
    pub total_failed_queued: u32,
    pub rssi: u32,
    pub snr: u32,
    pub rssi_cnt: u32,
    pub total_rx_ntfy: u32,
    pub total_rx_bcast: u32,
    pub total_rx_direct: u32,
    pub total_relay_req: u32,
    pub total_relay_ntfy: u32,
}

/// Counter addition, wrapping round at 2^32.
pub open spec fn wadd(a: u32, b: u8) -> u32 {
    if a + b > u32::MAX {
        (a + b - 0x1_0000_0000) as u32
    } else {
        (a + b) as u32
    }
}

/// Two bytes read as a big-endian number.
pub open spec fn be16(hi: u8, lo: u8) -> u16 {
    (hi as int * 256 + lo as int) as u16
}

/// A device first heard from at `now`.
pub open spec fn new_device(addr: MacAddr, now: u64) -> EspDevice {
    EspDevice {
        addr,
        net_stat_ts: 0,
        last_push_id: 0,
        last_seen: now,
        last_seen_gap: 0,
        next_node: None,
        total_resent: 0,
        total_sent: 0,
        total_failed: 0,
        total_failed_queued: 0,
        rssi: 0,
        snr: 0,
        rssi_cnt: 0,
        total_rx_ntfy: 0,
        total_rx_bcast: 0,
        total_rx_direct: 0,
        total_relay_req: 0,
        total_relay_ntfy: 0,
    }
}

/// Whether a statistics record comes from the coordinator.
pub open spec fn from_coordinator(msg: Seq<u8>) -> bool {
    msg[1] == COORDINATOR_MARK
}

/// Whether a statistics record names a next hop other than the recorded one.
pub open spec fn hop_changes(d: EspDevice, msg: Seq<u8>) -> bool {
    !from_coordinator(msg) && d.next_node is Some && d.next_node != Some(tail_mac(msg))
}

/// The statistics counter of a record.
pub open spec fn netstat_ts(msg: Seq<u8>) -> u16 {
    be16(msg[11], msg[12])
}

/// Records missed between the recorded counter and the one received.
pub open spec fn skipped_records(d: EspDevice, msg: Seq<u8>) -> u16 {
    if netstat_ts(msg) > d.net_stat_ts && d.net_stat_ts > 0 {
        (netstat_ts(msg) - d.net_stat_ts - 1) as u16
    } else {
        0
    }
}

/// What a statistics record reveals about a device.
pub open spec fn netstat_report(d: EspDevice, msg: Seq<u8>) -> NetstatReport {
    let skipped = skipped_records(d, msg);
    NetstatReport {
        coordinator: from_coordinator(msg),
        hop_changed: hop_changes(d, msg),
        skipped,
        skip_level: if skipped > 3 {
            Level::Error
        } else if skipped > 0 {
            Level::Warn
        } else {
            Level::Silent
        },
        summary_level: if !from_coordinator(msg) && (msg[3] > 0 || msg[4] > 0) {
            Level::Warn
        } else {
            Level::Info
        },
    }
}

/// A device after one statistics record: a new next hop resets the signal
/// statistics; the receive counters always grow; the send counters and, when
/// a signal sample came, the signal sums grow only for devices other than the
/// coordinator.
pub open spec fn netstat_applied(d: EspDevice, msg: Seq<u8>) -> EspDevice {
    let coord = from_coordinator(msg);
    let routed = if coord {
        d
    } else if hop_changes(d, msg) {
        EspDevice { next_node: Some(tail_mac(msg)), rssi: 0, snr: 0, rssi_cnt: 0, ..d }
    } else {
        EspDevice { next_node: Some(tail_mac(msg)), ..d }
    };
    let counted = EspDevice {
        net_stat_ts: netstat_ts(msg),
        total_rx_ntfy: wadd(routed.total_rx_ntfy, msg[6]),
        total_rx_bcast: wadd(routed.total_rx_bcast, msg[7]),
        total_rx_direct: wadd(routed.total_rx_direct, msg[8]),
        total_relay_req: wadd(routed.total_relay_req, msg[9]),
        total_relay_ntfy: wadd(routed.total_relay_ntfy, msg[10]),
        ..routed
    };
    if coord {
        counted
    } else {
        let sampled = if msg[0] > 0 {
            EspDevice {
                rssi_cnt: wadd(counted.rssi_cnt, 1),
                rssi: wadd(counted.rssi, msg[0]),
                snr: wadd(counted.snr, msg[1]),
                ..counted
            }
        } else {
            counted
        };
        EspDevice {
            total_resent: wadd(sampled.total_resent, msg[2]),
            total_failed_queued: wadd(sampled.total_failed_queued, msg[3]),
            total_failed: wadd(sampled.total_failed, msg[4]),
            total_sent: wadd(sampled.total_sent, msg[5]),
            ..sampled
        }
    }
}

impl EspDevice {
    /// A device first heard from at `now`, all counters zero.
    pub fn new(addr: MacAddr, now: u64) -> (r: EspDevice)
        ensures
            r == new_device(addr, now),
    {
        EspDevice {
            addr,
            net_stat_ts: 0,
            last_push_id: 0,
            last_seen: now,
            last_seen_gap: 0,
            next_node: None,
            total_resent: 0,
            total_sent: 0,
            total_failed: 0,
            total_failed_queued: 0,
            rssi: 0,
            snr: 0,
            rssi_cnt: 0,
            total_rx_ntfy: 0,
            total_rx_bcast: 0,
            total_rx_direct: 0,
            total_relay_req: 0,
            total_relay_ntfy: 0,
        }
    }

    /// Takes in one network-statistics record: the signal sample and the
    /// sender's send counters, the receive counters, the statistics counter
    /// and the address of the next hop at the end.
    pub fn decode_netstat(&mut self, msg: &[u8]) -> (r: NetstatReport)
        requires
            msg@.len() >= STAT_SIZE,
        ensures
            *final(self) == netstat_applied(*old(self), msg@),
            r == netstat_report(*old(self), msg@),
    {
        let next_node = MacAddr::from_tail(msg);
        let is_coordinator = msg[1] == COORDINATOR_MARK;
        let mut hop_changed = false;
        if !is_coordinator {
            match self.next_node {
                None => {
                    self.next_node = Some(next_node);
                },
                Some(current) => {
                    if current != next_node {
                        hop_changed = true;
                        self.rssi_cnt = 0;
                        self.rssi = 0;
                        self.snr = 0;
                    }
                    self.next_node = Some(next_node);
                },
            }
        }
        let net_stat_ts: u16 = msg[11] as u16 * 256 + msg[12] as u16;
        let mut skipped: u16 = 0;
        if net_stat_ts > self.net_stat_ts && self.net_stat_ts > 0 {
            skipped = net_stat_ts - self.net_stat_ts - 1;
        }
        let skip_level = if skipped > 3 {
            Level::Error
        } else if skipped > 0 {
            Level::Warn
        } else {
            Level::Silent
        };
        self.net_stat_ts = net_stat_ts;
        self.total_rx_ntfy = self.total_rx_ntfy.wrapping_add(msg[6] as u32);
        self.total_rx_bcast = self.total_rx_bcast.wrapping_add(msg[7] as u32);
        self.total_rx_direct = self.total_rx_direct.wrapping_add(msg[8] as u32);
        self.total_relay_req = self.total_relay_req.wrapping_add(msg[9] as u32);
        self.total_relay_ntfy = self.total_relay_ntfy.wrapping_add(msg[10] as u32);
        let mut summary_level = Level::Info;
        if !is_coordinator {
            if msg[0] > 0 {
                self.rssi_cnt = self.rssi_cnt.wrapping_add(1);
                self.rssi = self.rssi.wrapping_add(msg[0] as u32);
                self.snr = self.snr.wrapping_add(msg[1] as u32);
            }
            self.total_resent = self.total_resent.wrapping_add(msg[2] as u32);
            self.total_failed_queued = self.total_failed_queued.wrapping_add(msg[3] as u32);
            self.total_failed = self.total_failed.wrapping_add(msg[4] as u32);
            self.total_sent = self.total_sent.wrapping_add(msg[5] as u32);
            if msg[3] > 0 || msg[4] > 0 {
                summary_level = Level::Warn;
            }
        }
        NetstatReport {
            coordinator: is_coordinator,
            hop_changed,
            skipped,
            skip_level,
            summary_level,
        }
    }

    /// Mean of the signal strength samples, zero before the first.
    pub fn avg_rssi(&self) -> (r: u32)
        ensures
            r == if self.rssi_cnt == 0 { 0 } else { self.rssi / self.rssi_cnt },
    {
        if self.rssi_cnt == 0 { 0 } else { self.rssi / self.rssi_cnt }
    }

    /// Mean of the signal-to-noise samples, zero before the first.
    pub fn avg_snr(&self) -> (r: u32)
        ensures
            r == if self.rssi_cnt == 0 { 0 } else { self.snr / self.rssi_cnt },
    {
        if self.rssi_cnt == 0 { 0 } else { self.snr / self.rssi_cnt }
    }
}

/// std's Instant, carried opaque: the origin of the registry's clock.
#[verifier::external_type_specification]
#[verifier::external_body]
pub struct ExInstant(std::time::Instant);

/// Relies on std's Instant::now: some instant of a monotonic clock.
pub assume_specification[ std::time::Instant::now ]() -> std::time::Instant;

/// Relies on std's Instant::elapsed: the time passed since `epoch`, here in
/// whole microseconds.
#[verifier::external_body]
fn micros_since(epoch: &std::time::Instant) -> u64 {
    epoch.elapsed().as_micros() as u64
}

/// A device as the registry holds it, or a new one first heard from at `now`.
pub open spec fn device_or_new(m: Map<u64, EspDevice>, addr: MacAddr, now: u64) -> EspDevice {
    if m.contains_key(addr.0) {
        m[addr.0]
    } else {
        new_device(addr, now)
    }
}

/// A device heard from at `now`.
pub open spec fn seen(d: EspDevice, now: u64) -> EspDevice {
    EspDevice {
        last_seen_gap: if now >= d.last_seen {
            (now - d.last_seen) as u64
        } else {
            0
        },
        last_seen: now,
        ..d
    }
}

/// The sender of a bare push after it was heard from: the address ends the
/// push, the push identifier stands just before it.
pub open spec fn push_touched(m: Map<u64, EspDevice>, data: Seq<u8>, now: u64) -> EspDevice {
    let n = data.len();
    EspDevice {
        last_push_id: be16(data[n - 8], data[n - 7]),
        ..seen(device_or_new(m, tail_mac(data), now), now)
    }
}

/// Whether a notify envelope with push identifier `id` is new to a device
/// whose last one was `last`: it is larger, or so much smaller that the
/// counter must have wrapped round.
pub open spec fn push_accepted(last: u16, id: u16) -> bool {
    last < id || last - id > PUSH_ID_WINDOW
}

/// The sender of a notify envelope.
pub open spec fn notify_sender(data: Seq<u8>) -> MacAddr {
    MacAddr(mac_key(data.subrange(1, 7)))
}

/// The push identifier that ends a notify envelope.
pub open spec fn notify_push_id(data: Seq<u8>) -> u16 {
    be16(data[data.len() - 2], data[data.len() - 1])
}

/// Whether a notify envelope is too short to carry the statistics record
/// that its type announces.
pub open spec fn notify_stats_short(data: Seq<u8>) -> bool {
    data[0] == MSG_TYPE_PUSH_NETSTAT && data.len() < NOTIFY_HEADER_LEN + NETSTAT_LEN
}

/// What one telemetry message did.
#[derive(Clone, Copy, Debug, PartialEq, Eq)]
pub enum TraceOutcome {
    /// A bare statistics push of `addr`.
    Netstat { addr: MacAddr, report: NetstatReport },
    /// A bare GPIO push of `addr`.
    Gpio { addr: MacAddr },
    /// A notify envelope carrying a push; `stats` when it carried new
    /// statistics.
    Notify { addr: MacAddr, push_id: u16, accepted: bool, stats: Option<NetstatReport> },
    /// A notify envelope carrying no push.
    NotPush { addr: MacAddr, kind: u8 },
    /// Too short for its type; nothing was changed.
    TooShort,
    /// Not a telemetry message.
    Ignored,
}

/// The registry after one telemetry message received at `now`, and what the
/// message did.
pub open spec fn trace_result(m: Map<u64, EspDevice>, msg_type: u8, data: Seq<u8>, now: u64) -> (
    Map<u64, EspDevice>,
    TraceOutcome,
) {
    if msg_type == MSG_TYPE_PUSH_NETSTAT {
        if data.len() < NETSTAT_LEN {
            (m, TraceOutcome::TooShort)
        } else {
            let addr = tail_mac(data);
            let d = push_touched(m, data, now);
            let msg = data.subrange(0, NETSTAT_LEN as int);
            (
                m.insert(addr.0, netstat_applied(d, msg)),
                TraceOutcome::Netstat { addr, report: netstat_report(d, msg) },
            )
        }
    } else if msg_type == MSG_TYPE_PUSH_GPIO {
        if data.len() < 8 {
            (m, TraceOutcome::TooShort)
        } else {
            let addr = tail_mac(data);
            (m.insert(addr.0, push_touched(m, data, now)), TraceOutcome::Gpio { addr })
        }
    } else if msg_type == MSG_TYPE_NOTIFY {
        if data.len() < NOTIFY_HEADER_LEN {
            (m, TraceOutcome::TooShort)
        } else if data[0] & MSG_TYPE_PUSH == 0 {
            (m, TraceOutcome::NotPush { addr: notify_sender(data), kind: data[0] })
        } else {
            let addr = notify_sender(data);
            let id = notify_push_id(data);
            let d = seen(device_or_new(m, addr, now), now);
            if !push_accepted(d.last_push_id, id) {
                (
                    m.insert(addr.0, d),
                    TraceOutcome::Notify { addr, push_id: id, accepted: false, stats: None },
                )
            } else {
                let d2 = EspDevice { last_push_id: id, ..d };
                if notify_stats_short(data) {
                    (m.insert(addr.0, d), TraceOutcome::TooShort)
                } else if data[0] == MSG_TYPE_PUSH_NETSTAT {
                    let msg = data.subrange(
                        NOTIFY_HEADER_LEN as int,
                        (NOTIFY_HEADER_LEN + NETSTAT_LEN) as int,
                    );
                    (
                        m.insert(addr.0, netstat_applied(d2, msg)),
                        TraceOutcome::Notify {
                            addr,
                            push_id: id,
                            accepted: true,
                            stats: Some(netstat_report(d2, msg)),
                        },
                    )
                } else {
                    (
                        m.insert(addr.0, d2),
                        TraceOutcome::Notify { addr, push_id: id, accepted: true, stats: None },
                    )
                }
            }
        }
    } else {
        (m, TraceOutcome::Ignored)
    }
}

/// The registry of the devices of the mesh, keyed by address.
pub struct EspTester {
    esp_devices: HashMap<u64, EspDevice>,
    epoch: std::time::Instant,
}

impl EspTester {
    /// Each device is filed under its own address.
    pub closed spec fn wf(&self) -> bool {
        forall|k: u64| #[trigger] self.esp_devices@.contains_key(k) ==> self.esp_devices@[k].addr.0 == k
    }

    /// The devices heard from, by address.
    pub closed spec fn devices(&self) -> Map<u64, EspDevice> {
        self.esp_devices@
    }

    /// An empty registry whose clock starts now.
    pub fn new() -> (r: EspTester)
        ensures
            r.wf(),
            r.devices() == Map::<u64, EspDevice>::empty(),
    {
        EspTester { esp_devices: HashMap::new(), epoch: std::time::Instant::now() }
    }

    /// The record of one device.
    pub fn device(&self, addr: &MacAddr) -> (r: Option<&EspDevice>)
        ensures
            match r {
                Some(d) => self.devices().contains_key(addr.0) && self.devices()[addr.0] == *d,
                None => !self.devices().contains_key(addr.0),
            },
    {
        self.esp_devices.get(&addr.0)
    }

    /// Number of devices heard from.
    pub fn device_count(&self) -> (r: usize)
        ensures
            r == self.devices().len(),
    {
        self.esp_devices.len()
    }

    fn lookup(&self, addr: MacAddr, now: u64) -> (r: EspDevice)
        ensures
            r == device_or_new(self.devices(), addr, now),
    {
        match self.esp_devices.get(&addr.0) {
            Some(d) => *d,
            None => EspDevice::new(addr, now),
        }
    }

    fn store(&mut self, d: EspDevice)
        requires
            old(self).wf(),
        ensures
            final(self).wf(),
            final(self).devices() == old(self).devices().insert(d.addr.0, d),
    {
        self.esp_devices.insert(d.addr.0, d);
    }

    /// The sender of a bare push, heard from at `now`, with the push
    /// identifier it carries.
    fn decode_push(&self, data: &[u8], now: u64) -> (r: EspDevice)
        requires
            self.wf(),
            data@.len() >= 8,
        ensures
            r == push_touched(self.devices(), data@, now),
            r.addr == tail_mac(data@),
    {
        let n = data.len();
        let addr = MacAddr::from_tail(data);
        let mut d = self.lookup(addr, now);
        d.last_seen_gap = now.saturating_sub(d.last_seen);
        d.last_seen = now;
        d.last_push_id = data[n - 8] as u16 * 256 + data[n - 7] as u16;
        d
    }

    fn decode_push_netstat(&mut self, data: &[u8], now: u64) -> (r: TraceOutcome)
        requires
            old(self).wf(),
            data@.len() >= NETSTAT_LEN,
        ensures
            final(self).wf(),
            (final(self).devices(), r) == trace_result(
                old(self).devices(),
                MSG_TYPE_PUSH_NETSTAT,
                data@,
                now,
            ),
    {
        let mut d = self.decode_push(data, now);
        let report = d.decode_netstat(vstd::slice::slice_subrange(data, 0, NETSTAT_LEN));
        let addr = d.addr;
        self.store(d);
        TraceOutcome::Netstat { addr, report }
    }

    fn decode_push_gpio(&mut self, data: &[u8], now: u64) -> (r: TraceOutcome)
        requires
            old(self).wf(),
            data@.len() >= 8,
        ensures
            final(self).wf(),
            (final(self).devices(), r) == trace_result(
                old(self).devices(),
                MSG_TYPE_PUSH_GPIO,
                data@,
                now,
            ),
    {
        let d = self.decode_push(data, now);
        let addr = d.addr;
        self.store(d);
        TraceOutcome::Gpio { addr }
    }

    fn decode_notify(&mut self, data: &[u8], now: u64) -> (r: TraceOutcome)
        requires
            old(self).wf(),
            data@.len() >= NOTIFY_HEADER_LEN,
        ensures
            final(self).wf(),
            (final(self).devices(), r) == trace_result(
                old(self).devices(),
                MSG_TYPE_NOTIFY,
                data@,
                now,
            ),
    {
        let addr = MacAddr::from_tail(vstd::slice::slice_subrange(data, 1, NOTIFY_HEADER_LEN));
        proof {
            assert(data@.subrange(1, 7).subrange(0, 6) =~= data@.subrange(1, 7));
        }
        if data[0] & MSG_TYPE_PUSH == 0 {
            return TraceOutcome::NotPush { addr, kind: data[0] };
        }
        let n = data.len();
        let mut d = self.lookup(addr, now);
        d.last_seen_gap = now.saturating_sub(d.last_seen);
        d.last_seen = now;
        let push_id: u16 = data[n - 2] as u16 * 256 + data[n - 1] as u16;
        if d.last_push_id < push_id || d.last_push_id - push_id > PUSH_ID_WINDOW {
            if data[0] == MSG_TYPE_PUSH_NETSTAT && n < NOTIFY_HEADER_LEN + NETSTAT_LEN {
                self.store(d);
                return TraceOutcome::TooShort;
            }
            d.last_push_id = push_id;
            if data[0] == MSG_TYPE_PUSH_NETSTAT {
                let report = d.decode_netstat(
                    vstd::slice::slice_subrange(data, NOTIFY_HEADER_LEN, NOTIFY_HEADER_LEN + NETSTAT_LEN),
                );
                self.store(d);
                TraceOutcome::Notify { addr, push_id, accepted: true, stats: Some(report) }
            } else {
                self.store(d);
                TraceOutcome::Notify { addr, push_id, accepted: true, stats: None }
            }
        } else {
            self.store(d);
            TraceOutcome::Notify { addr, push_id, accepted: false, stats: None }
        }
    }

    /// Takes in one telemetry message received at `now`, in microseconds of
    /// the registry's clock: a bare statistics or GPIO push, or a notify
    /// envelope. Other message types, and messages too short for their type,
    /// leave the registry as it was; the one exception is a notify envelope
    /// that announces a statistics record it is too short to hold, whose
    /// sender is still marked as heard from.
    pub fn trace_esp_data_at(&mut self, msg_type: u8, data: &[u8], now: u64) -> (r: TraceOutcome)
        requires
            old(self).wf(),
        ensures
            final(self).wf(),
            (final(self).devices(), r) == trace_result(old(self).devices(), msg_type, data@, now),
    {
        if msg_type == MSG_TYPE_PUSH_NETSTAT {
            if data.len() < NETSTAT_LEN {
                TraceOutcome::TooShort
            } else {
                self.decode_push_netstat(data, now)
            }
        } else if msg_type == MSG_TYPE_PUSH_GPIO {
            if data.len() < 8 {
                TraceOutcome::TooShort
            } else {
                self.decode_push_gpio(data, now)
            }
        } else if msg_type == MSG_TYPE_NOTIFY {
            if data.len() < NOTIFY_HEADER_LEN {
                TraceOutcome::TooShort
            } else {
                self.decode_notify(data, now)
            }
        } else {
            TraceOutcome::Ignored
        }
    }

    /// The registry's clock, in microseconds.
    pub fn now(&self) -> u64 {
        micros_since(&self.epoch)
    }

    /// Takes in one telemetry message, stamped with the registry's clock.
    pub fn trace_esp_data(&mut self, msg_type: u8, data: &[u8]) -> (r: TraceOutcome)
        requires
            old(self).wf(),
        ensures
            final(self).wf(),
            exists|now: u64|
                #[trigger] trace_result(old(self).devices(), msg_type, data@, now) == (
                    final(self).devices(),
                    r,
                ),
    {
        let now = micros_since(&self.epoch);
        self.trace_esp_data_at(msg_type, data, now)
    }
}

/// Two statistics pushes from one device that name different next hops:
/// after the second, the signal statistics hold the second record's sample
/// alone; those gathered on the old route are gone.
pub proof fn lemma_hop_change_resets_signal(
    m: Map<u64, EspDevice>,
    data1: Seq<u8>,
    data2: Seq<u8>,
    now1: u64,
    now2: u64,
)
    requires
        data1.len() >= NETSTAT_LEN,
        data2.len() >= NETSTAT_LEN,
        tail_mac(data1) == tail_mac(data2),
        !from_coordinator(data1.subrange(0, NETSTAT_LEN as int)),
        !from_coordinator(data2.subrange(0, NETSTAT_LEN as int)),
        tail_mac(data1.subrange(0, NETSTAT_LEN as int)) != tail_mac(
            data2.subrange(0, NETSTAT_LEN as int),
        ),
    ensures
        ({
            let m1 = trace_result(m, MSG_TYPE_PUSH_NETSTAT, data1, now1).0;
            let m2 = trace_result(m1, MSG_TYPE_PUSH_NETSTAT, data2, now2).0;
            let d = m2[tail_mac(data2).0];
            let sample = data2[0];
            &&& d.rssi_cnt == if sample > 0 { 1u32 } else { 0u32 }
            &&& d.rssi == if sample > 0 { sample as u32 } else { 0u32 }
            &&& d.snr == if sample > 0 { data2[1] as u32 } else { 0u32 }
        }),
{
    let msg1 = data1.subrange(0, NETSTAT_LEN as int);
    let msg2 = data2.subrange(0, NETSTAT_LEN as int);
    let addr = tail_mac(data1);
    let m1 = trace_result(m, MSG_TYPE_PUSH_NETSTAT, data1, now1).0;
    assert(m1[addr.0].next_node == Some(tail_mac(msg1)));
    let d = push_touched(m1, data2, now2);
    assert(d.next_node == Some(tail_mac(msg1)));
    assert(hop_changes(d, msg2));
}

/// Replay suppression of notify envelopes: a push identifier that is neither
/// newer than the device's last one nor far enough below it to be a wrapped
/// counter changes nothing but when the device was last heard from. An
/// accepted one becomes the device's last push identifier, and the record it
/// carries is applied; only the other devices are left alone either way.
pub proof fn lemma_notify_replay(m: Map<u64, EspDevice>, data: Seq<u8>, now: u64)
    requires
        data.len() >= NOTIFY_HEADER_LEN,
        !notify_stats_short(data),
        data[0] & MSG_TYPE_PUSH != 0,
        m.contains_key(notify_sender(data).0),
    ensures
        ({
            let k = notify_sender(data).0;
            let id = notify_push_id(data);
            let m2 = trace_result(m, MSG_TYPE_NOTIFY, data, now).0;
            let d = seen(m[k], now);
            let msg = data.subrange(
                NOTIFY_HEADER_LEN as int,
                (NOTIFY_HEADER_LEN + NETSTAT_LEN) as int,
            );
            &&& m2 == m.insert(k, m2[k])
            &&& !push_accepted(m[k].last_push_id, id) ==> m2[k] == d
            &&& push_accepted(m[k].last_push_id, id) && data[0] == MSG_TYPE_PUSH_NETSTAT ==> m2[k]
                == netstat_applied(EspDevice { last_push_id: id, ..d }, msg)
            &&& push_accepted(m[k].last_push_id, id) && data[0] != MSG_TYPE_PUSH_NETSTAT ==> m2[k]
                == (EspDevice { last_push_id: id, ..d })
        }),
{
    let k = notify_sender(data).0;
    let m2 = trace_result(m, MSG_TYPE_NOTIFY, data, now).0;
    assert(m2 =~= m.insert(k, m2[k]));
}

impl Default for EspTester {
    fn default() -> (r: EspTester)
        ensures
            r.wf(),
            r.devices() == Map::<u64, EspDevice>::empty(),
    {
        EspTester::new()
    }
}

} // verus!

//! The plain data the library works on: filters, control signals, packet
//! headers and the counters kept per filter.

use vstd::prelude::*;

verus! {

/// Which traffic a capture observes.
#[derive(Debug, Clone, Copy, PartialEq, Eq, Structural)]
pub enum Direction {
    /// Packets received by or sent by the device.
    InOut,
    /// Only packets received by the device.
    In,
    /// Only packets sent by the device.
    Out,
}

/// A control signal for a running listener.
#[derive(Debug, Clone, Copy, PartialEq, Eq, Structural)]
pub enum Action {
    Suspend,
    Resume,
    Stop,
}

/// What to capture: a device, a filter expression and how to observe it.
///
/// The `rule` is also the key under which the listener is addressed and under
/// which its counters are published.
#[derive(Debug, Clone)]
pub struct Filter {
    pub device: String,
    pub rule: String,
    pub direction: Direction,
    pub immediate_mode: bool,
}

impl Filter {
    /// A filter on `device` for `rule` that observes both directions in
    /// immediate mode.
    pub fn new(device: String, rule: String) -> (filter: Filter)
        ensures
            filter.device == device,
            filter.rule == rule,
            filter.direction == Direction::InOut,
            filter.immediate_mode,
    {
        Filter { device, rule, direction: Direction::InOut, immediate_mode: true }
    }
}

/// What the library reads of a captured packet: its length on the wire and
/// the seconds of its capture time.
#[derive(Debug, Clone, Copy, PartialEq, Eq, Structural)]
pub struct PacketHeader {
    pub len: u32,
    pub seconds: u64,
}

/// The seconds of a capture time as an unsigned number: a negative value
/// counts from the top of the 64-bit range, as a two's complement cast does.
pub open spec fn unsigned_seconds(tv_sec: i64) -> int {
    if tv_sec >= 0 {
        tv_sec as int
    } else {
        tv_sec + 0x1_0000_0000_0000_0000
    }
}

impl PacketHeader {
    /// The header of a packet of `len` bytes captured at `tv_sec` seconds.
    pub fn new(len: u32, tv_sec: i64) -> (header: PacketHeader)
        ensures
            header.len == len,
            header.seconds == unsigned_seconds(tv_sec),
    {
        let seconds: u64 = if tv_sec >= 0 {
            tv_sec as u64
        } else {
            u64::MAX - ((-(tv_sec + 1)) as u64)
        };
        PacketHeader { len, seconds }
    }
}

/// Counters as unbounded numbers: the mathematical value of a [`Snapshot`].
pub struct Totals {
    /// Bytes of all counted packets.
    pub total: nat,
    /// Length of the packet counted last.
    pub len: nat,
    /// Sum of the capture-time seconds of all counted packets.
    pub timestamp: nat,
}

impl Totals {
    /// Counters before any packet.
    pub open spec fn zero() -> Totals {
        Totals { total: 0, len: 0, timestamp: 0 }
    }

    /// The counters after one more packet: its length is added to `total` and
    /// replaces `len`, its seconds are added to `timestamp`.
    pub open spec fn plus(self, header: PacketHeader) -> Totals {
        Totals {
            total: self.total + header.len as nat,
            len: header.len as nat,
            timestamp: self.timestamp + header.seconds as nat,
        }
    }

    /// Whether the counters after `header` still fit the 64-bit fields of a
    /// [`Snapshot`].
    pub open spec fn fits(self, header: PacketHeader) -> bool {
        &&& self.total + header.len <= u64::MAX
        &&& self.timestamp + header.seconds <= u64::MAX
    }
}

/// The counters of one filter at one moment.
#[derive(Debug, Clone, Copy, PartialEq, Eq, Structural)]
pub struct Snapshot {
    /// Bytes of all counted packets.
    pub total: u64,
    /// Length of the packet counted last.
    pub len: u64,
    /// Sum of the capture-time seconds of all counted packets.
    pub timestamp: u64,
}

impl View for Snapshot {
    type V = Totals;

    open spec fn view(&self) -> Totals {
        Totals { total: self.total as nat, len: self.len as nat, timestamp: self.timestamp as nat }
    }
}

impl Default for Snapshot {
    fn default() -> (snapshot: Snapshot)
        ensures
            snapshot@ == Totals::zero(),
    {
        Snapshot { total: 0, len: 0, timestamp: 0 }
    }
}

impl Snapshot {
    /// Whether `header` can be counted without leaving the 64-bit range.
    pub fn fits(&self, header: PacketHeader) -> (ok: bool)
        ensures
            ok == self@.fits(header),
    {
        header.len as u64 <= u64::MAX - self.total && header.seconds <= u64::MAX - self.timestamp
    }

    /// The counters after one more packet.
    pub fn plus(self, header: PacketHeader) -> (next: Snapshot)
        requires
            self@.fits(header),
        ensures
            next@ == self@.plus(header),
    {
        Snapshot {
            total: self.total + header.len as u64,
            len: header.len as u64,
            timestamp: self.timestamp + header.seconds,
        }
    }
}

} // verus!

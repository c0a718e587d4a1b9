//! What hosted network devices decide and compute around their system calls.
use vstd::prelude::*;

use crate::time::Duration;

verus! {

/// The length of an Ethernet header.
pub const ETHERNET_HEADER_LEN: usize = 14;

/// What a device transports.
#[derive(Debug, Clone, Copy, PartialEq, Eq, Structural)]
pub enum Medium {
    /// Frames with an Ethernet header.
    Ethernet,
    /// Bare IP packets.
    Ip,
    /// IEEE 802.15.4 frames.
    Ieee802154,
}

/// Whether a file descriptor fits a set of `set_size` descriptors, so that it can be waited
/// for.
pub fn descriptor_fits_set(fd: i32, set_size: usize) -> (fits: bool)
    ensures
        fits == (0 <= fd < set_size),
{
    fd >= 0 && (fd as usize) < set_size
}

/// A timeout as the whole seconds, and the microseconds of the whole milliseconds past them.
pub fn select_timeout(duration: Duration) -> (timeout: (u64, u64))
    ensures
        timeout.0 == duration.micros / 1_000_000,
        timeout.1 == (duration.micros / 1000 % 1000) * 1000,
        timeout.0 * 1_000_000 + timeout.1 == duration.micros - duration.micros % 1000,
{
    (duration.secs(), duration.millis() * 1000)
}

/// An interface name as a field of `field_len` bytes, padded with zeros. `None` where the name
/// leaves no room for one.
pub fn interface_name_field(name: &[u8], field_len: usize) -> (field: Option<Vec<u8>>)
    ensures
        name@.len() >= field_len ==> field is None,
        name@.len() < field_len ==> (field matches Some(bytes) && bytes@ == Seq::new(
            field_len as nat,
            |i: int|
                if i < name@.len() {
                    name@[i]
                } else {
                    0u8
                },
        )),
{
    if name.len() >= field_len {
        return None;
    }
    let mut field: Vec<u8> = Vec::new();
    while field.len() < field_len
        invariant
            name@.len() < field_len,
            field@.len() <= field_len,
            forall|i: int|
                0 <= i < field@.len() ==> #[trigger] field@[i] == if i < name@.len() {
                    name@[i]
                } else {
                    0u8
                },
        decreases field_len - field@.len(),
    {
        let index: usize = field.len();
        field.push(
            if index < name.len() {
                name[index]
            } else {
                0
            },
        );
    }
    assert(field@ =~= Seq::new(
        field_len as nat,
        |i: int|
            if i < name@.len() {
                name@[i]
            } else {
                0u8
            },
    ));
    Some(field)
}

/// The protocol that a raw socket on `medium` receives: `all`, or the one of IEEE 802.15.4.
pub fn raw_protocol(medium: Medium, all: i16, ieee802154: i16) -> (protocol: i16)
    ensures
        protocol == if medium is Ieee802154 {
            ieee802154
        } else {
            all
        },
{
    match medium {
        Medium::Ethernet | Medium::Ip => all,
        Medium::Ieee802154 => ieee802154,
    }
}

/// The mode that a tunnel for `medium` is opened in: `tun` for packets, `tap` for frames.
/// There is none for IEEE 802.15.4.
pub fn tunnel_mode(medium: Medium, tun: i32, tap: i32) -> (mode: i32)
    requires
        !(medium is Ieee802154),
    ensures
        mode == if medium is Ip {
            tun
        } else {
            tap
        },
{
    match medium {
        Medium::Ip => tun,
        _ => tap,
    }
}

/// The largest packet that a tunnel for `medium` transports, where the system gives the largest
/// IP packet: a frame has its header besides.
pub fn tunnel_mtu(medium: Medium, ip_mtu: usize) -> (mtu: usize)
    requires
        !(medium is Ieee802154),
        medium is Ethernet ==> ip_mtu + ETHERNET_HEADER_LEN <= usize::MAX,
    ensures
        mtu == if medium is Ip {
            ip_mtu as int
        } else {
            ip_mtu + ETHERNET_HEADER_LEN
        },
{
    match medium {
        Medium::Ip => ip_mtu,
        _ => ip_mtu + ETHERNET_HEADER_LEN,
    }
}

/// How long a packet filter's buffer has to be for frames of `frame_mtu` bytes behind headers of
/// `header_len`. `None` where the system cannot be asked for as much.
pub fn filter_buffer_needed(frame_mtu: usize, header_len: usize) -> (needed: Option<u32>)
    ensures
        needed == if frame_mtu + header_len <= u32::MAX {
            Some((frame_mtu + header_len) as u32)
        } else {
            None
        },
{
    match frame_mtu.checked_add(header_len) {
        Some(len) => {
            if len <= u32::MAX as usize {
                Some(len as u32)
            } else {
                None
            }
        },
        None => None,
    }
}

/// The length of a packet filter's buffer, where the `actual` one that the system gave is as
/// long as was `needed`.
pub fn filter_buffer_granted(needed: u32, actual: usize) -> (len: Option<usize>)
    ensures
        len == if actual >= needed {
            Some(actual)
        } else {
            None
        },
{
    if actual < needed as usize {
        None
    } else {
        Some(actual)
    }
}

} // verus!

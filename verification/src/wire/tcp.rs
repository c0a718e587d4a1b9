//! TCP sequence numbers.
use vstd::prelude::*;

verus! {

/// A sequence number: a position on a circle of 2^32 positions.
#[derive(Debug, Clone, Copy, PartialEq, Eq, Structural)]
pub struct TcpSeqNumber(pub i32);

/// How far `a` lies past `b` on the circle, the short way round: negative where it lies
/// before it.
pub open spec fn seq_distance(a: TcpSeqNumber, b: TcpSeqNumber) -> int {
    let d = a.0 - b.0;
    if d > i32::MAX {
        d - 0x1_0000_0000
    } else if d < i32::MIN {
        d + 0x1_0000_0000
    } else {
        d
    }
}

impl TcpSeqNumber {
    /// How far this number lies past `other`.
    pub fn distance(self, other: TcpSeqNumber) -> (d: i32)
        ensures
            d == seq_distance(self, other),
    {
        self.0.wrapping_sub(other.0)
    }

    /// The later of this number and `other`.
    pub fn max(self, other: TcpSeqNumber) -> (r: TcpSeqNumber)
        ensures
            r == if seq_distance(self, other) > 0 {
                self
            } else {
                other
            },
    {
        if self.distance(other) > 0 {
            self
        } else {
            other
        }
    }

    /// The earlier of this number and `other`.
    pub fn min(self, other: TcpSeqNumber) -> (r: TcpSeqNumber)
        ensures
            r == if seq_distance(self, other) < 0 {
                self
            } else {
                other
            },
    {
        if self.distance(other) < 0 {
            self
        } else {
            other
        }
    }
}

/// The distance leads from one number to the other round the circle, the short way: it is the
/// only number of that size that does. Swapping the numbers turns it round, but for numbers that
/// lie opposite each other.
pub proof fn law_distance_leads_from_one_to_the_other(a: TcpSeqNumber, b: TcpSeqNumber)
    ensures
        i32::MIN <= seq_distance(a, b) <= i32::MAX,
        (b.0 + seq_distance(a, b) - a.0) % 0x1_0000_0000 == 0,
        seq_distance(a, b) == 0 <==> a == b,
        seq_distance(a, b) != i32::MIN ==> seq_distance(b, a) == -seq_distance(a, b),
{
}

} // verus!

//! The wake-on-LAN magic packet.

use vstd::prelude::*;
use crate::mac::MacAddr;

verus! {

/// Length of the magic packet: a six-byte header and sixteen copies of the address.
pub const MAGIC_PACKET_LEN: usize = 102;

/// Byte `i` of the magic packet for the address bytes `mac`.
pub open spec fn magic_byte(mac: Seq<u8>, i: int) -> u8 {
    if i < 6 {
        0xffu8
    } else {
        mac[(i - 6) % 6]
    }
}

/// The magic packet for `mac`: six bytes of `0xff`, then the address sixteen times.
pub open spec fn magic_packet_of(mac: Seq<u8>) -> Seq<u8> {
    Seq::new(102, |i: int| magic_byte(mac, i))
}

/// The packet opens with six `0xff` bytes, and its sixteen six-byte blocks
/// after them each hold the address.
pub proof fn lemma_magic_packet_shape(mac: Seq<u8>)
    requires
        mac.len() == 6,
    ensures
        magic_packet_of(mac).len() == 102,
        forall|i: int| 0 <= i < 6 ==> #[trigger] magic_packet_of(mac)[i] == 0xffu8,
        forall|k: int, j: int|
            0 <= k < 16 && 0 <= j < 6 ==> #[trigger] magic_packet_of(mac)[6 + 6 * k + j] == mac[j],
{
    assert forall|k: int, j: int| 0 <= k < 16 && 0 <= j < 6 implies #[trigger] magic_packet_of(
        mac,
    )[6 + 6 * k + j] == mac[j] by {
        assert((6 * k + j) % 6 == j) by (nonlinear_arith)
            requires
                0 <= j < 6,
        ;
    }
}

/// Builds the wake-on-LAN payload for `mac`.
pub fn magic_packet(mac: &MacAddr) -> (r: Vec<u8>)
    ensures
        r@ == magic_packet_of(mac.0@),
        r@.len() == 102,
{
    let mut p: Vec<u8> = Vec::with_capacity(MAGIC_PACKET_LEN);
    let mut i: usize = 0;
    while i < MAGIC_PACKET_LEN
        invariant
            0 <= i <= 102,
            p@ == magic_packet_of(mac.0@).take(i as int),
        decreases 102 - i,
    {
        let b = if i < 6 {
            0xffu8
        } else {
            mac.0[(i - 6) % 6]
        };
        p.push(b);
        assert(p@ =~= magic_packet_of(mac.0@).take(i + 1));
        i = i + 1;
    }
    assert(p@ =~= magic_packet_of(mac.0@));
    p
}

} // verus!

//! The wire format of one frame, and its decoder.
//!
//! A frame is 2520 bytes: 60 packets of 42 bytes. Packet `p` starts with the
//! sync byte `0xFA` and the packet id `0xA0 + p`, followed by the rotation
//! speed (two bytes) and six groups of six bytes, one per degree. Of each
//! group the first two bytes hold the intensity and the next two the range;
//! the last two are not used. The sensor sends the degrees in reverse: group
//! `g` of packet `p` is degree `359 - (6 * p + g)`.

use vstd::prelude::*;
use crate::reading::{LaserReading, ReadingView, DEGREES};

verus! {

/// Length of a frame in bytes.
pub const FRAME_LEN: usize = 2520;

/// Length of a packet in bytes.
pub const PACKET_LEN: usize = 42;

/// Number of packets in a frame.
pub const PACKETS: usize = 60;

/// Number of measurements in a packet.
pub const GROUPS: usize = 6;

/// First byte of every packet.
pub const SYNC_BYTE: u8 = 0xFA;

/// Second byte of the first packet; packet `p` carries `FIRST_ID + p`.
pub const FIRST_ID: u8 = 0xA0;

/// The 16-bit value that two bytes of the stream stand for:
/// `(high << 8) | low`.
pub open spec fn spec_word(low: u8, high: u8) -> u16 {
    ((high as u16) << 8) | (low as u16)
}

/// The 16-bit value that two bytes of the stream stand for.
#[verifier::when_used_as_spec(spec_word)]
pub fn word(low: u8, high: u8) -> (value: u16)
    ensures
        value == spec_word(low, high),
{
    ((high as u16) << 8) | (low as u16)
}

/// The shift and the bitwise or of `word` amount to `256 * high + low`.
pub proof fn lemma_word_value(low: u8, high: u8)
    ensures
        word(low, high) == 256 * high + low,
{
    let h = high as u16;
    let l = low as u16;
    assert(h < 256 && l < 256 ==> ((h << 8) | l) == 256 * h + l) by (bit_vector);
}

/// Holds when packet `p` of `frame` starts with the sync byte and its own id.
pub open spec fn header_valid(frame: Seq<u8>, p: int) -> bool {
    frame[42 * p] == 0xFA && frame[42 * p + 1] == 0xA0 + p
}

/// The rotation speed that packet `p` reports.
pub open spec fn packet_rpms(frame: Seq<u8>, p: int) -> u16 {
    word(frame[42 * p + 2], frame[42 * p + 3]) / 10
}

/// Where group `g` of packet `p` starts in the frame.
pub open spec fn group_offset(p: int, g: int) -> int {
    42 * p + 4 + 6 * g
}

/// The intensity in group `g` of packet `p`.
pub open spec fn group_intensity(frame: Seq<u8>, p: int, g: int) -> u16 {
    word(frame[group_offset(p, g)], frame[group_offset(p, g) + 1])
}

/// The range in group `g` of packet `p`.
pub open spec fn group_range(frame: Seq<u8>, p: int, g: int) -> u16 {
    word(frame[group_offset(p, g) + 2], frame[group_offset(p, g) + 3])
}

/// The packet that carries degree `d`.
pub open spec fn packet_of(d: int) -> int {
    (359 - d) / 6
}

/// The group, within its packet, that carries degree `d`.
pub open spec fn group_of(d: int) -> int {
    (359 - d) % 6
}

/// The range that a frame gives for degree `d`: that of its group, or zero
/// where the header of its packet is not valid.
pub open spec fn range_at(frame: Seq<u8>, d: int) -> u16 {
    if header_valid(frame, packet_of(d)) {
        group_range(frame, packet_of(d), group_of(d))
    } else {
        0
    }
}

/// The intensity that a frame gives for degree `d`: that of its group, or
/// zero where the header of its packet is not valid.
pub open spec fn intensity_at(frame: Seq<u8>, d: int) -> u16 {
    if header_valid(frame, packet_of(d)) {
        group_intensity(frame, packet_of(d), group_of(d))
    } else {
        0
    }
}

/// The last of the first `n` packets whose header is valid, if there is one.
pub open spec fn last_valid_packet(frame: Seq<u8>, n: int) -> Option<int>
    decreases n,
{
    if n <= 0 {
        None
    } else if header_valid(frame, n - 1) {
        Some(n - 1)
    } else {
        last_valid_packet(frame, n - 1)
    }
}

/// The rotation speed that a frame reports: that of its last valid packet.
pub open spec fn frame_rpms(frame: Seq<u8>) -> Option<u16> {
    match last_valid_packet(frame, 60) {
        Some(p) => Some(packet_rpms(frame, p)),
        None => None,
    }
}

/// The scan that a frame of 2520 bytes stands for.
pub open spec fn decoded(frame: Seq<u8>) -> ReadingView {
    ReadingView {
        ranges: Seq::new(360, |d: int| range_at(frame, d)),
        intensities: Seq::new(360, |d: int| intensity_at(frame, d)),
        rpms: match frame_rpms(frame) {
            Some(rpms) => rpms,
            None => 0,
        },
    }
}

/// Decodes one frame.
///
/// Every packet with a valid header gives its six measurements; those of a
/// packet with a bad header stay at zero. The scan carries the speed of the
/// last valid packet, and so does `rpms` afterwards; where no packet is
/// valid the scan carries zero and `rpms` keeps its value.
pub fn decode(frame: &[u8; FRAME_LEN], rpms: &mut u16) -> (scan: LaserReading)
    ensures
        scan@ == decoded(frame@),
        *final(rpms) == match frame_rpms(frame@) {
            Some(speed) => speed,
            None => *old(rpms),
        },
{
    let ghost before = *rpms;
    let mut scan = LaserReading::new();
    let mut p: usize = 0;
    while p < PACKETS
        invariant
            p <= 60,
            forall|d: int|
                0 <= d < 360 && 359 - d < 6 * p ==> scan.ranges@[d] == range_at(frame@, d),
            forall|d: int|
                0 <= d < 360 && 359 - d < 6 * p ==> scan.intensities@[d] == intensity_at(frame@, d),
            forall|d: int|
                0 <= d < 360 && 359 - d >= 6 * p ==> scan.ranges@[d] == 0,
            forall|d: int|
                0 <= d < 360 && 359 - d >= 6 * p ==> scan.intensities@[d] == 0,
            scan.rpms == match last_valid_packet(frame@, p as int) {
                Some(q) => packet_rpms(frame@, q),
                None => 0,
            },
            *rpms == match last_valid_packet(frame@, p as int) {
                Some(q) => packet_rpms(frame@, q),
                None => before,
            },
        decreases 60 - p,
    {
        let start: usize = PACKET_LEN * p;
        if frame[start] == SYNC_BYTE && frame[start + 1] as usize == FIRST_ID as usize + p {
            let speed: u16 = word(frame[start + 2], frame[start + 3]) / 10;
            scan.rpms = speed;
            *rpms = speed;
            let mut g: usize = 0;
            while g < GROUPS
                invariant
                    p < 60,
                    g <= 6,
                    start == 42 * p,
                    header_valid(frame@, p as int),
                    forall|d: int|
                        0 <= d < 360 && 359 - d < 6 * p + g ==> scan.ranges@[d] == range_at(
                            frame@,
                            d,
                        ),
                    forall|d: int|
                        0 <= d < 360 && 359 - d < 6 * p + g ==> scan.intensities@[d]
                            == intensity_at(frame@, d),
                    forall|d: int|
                        0 <= d < 360 && 359 - d >= 6 * p + g ==> scan.ranges@[d] == 0,
                    forall|d: int|
                        0 <= d < 360 && 359 - d >= 6 * p + g ==> scan.intensities@[d] == 0,
                    scan.rpms == speed,
                    *rpms == speed,
                decreases 6 - g,
            {
                let at: usize = start + 4 + 6 * g;
                let degree: usize = DEGREES - 1 - (GROUPS * p + g);
                scan.intensities[degree] = word(frame[at], frame[at + 1]);
                scan.ranges[degree] = word(frame[at + 2], frame[at + 3]);
                g += 1;
            }
        }
        p += 1;
    }
    scan
}

/// What `last_valid_packet` picks: a valid packet with no valid one behind
/// it, or nothing where none of the first `n` packets is valid.
pub proof fn lemma_last_valid_packet(frame: Seq<u8>, n: int)
    requires
        0 <= n,
    ensures
        match last_valid_packet(frame, n) {
            Some(p) => {
                &&& 0 <= p < n
                &&& header_valid(frame, p)
                &&& forall|q: int| p < q < n ==> !header_valid(frame, q)
            },
            None => forall|q: int| 0 <= q < n ==> !header_valid(frame, q),
        },
    decreases n,
{
    if n > 0 && !header_valid(frame, n - 1) {
        lemma_last_valid_packet(frame, n - 1);
    }
}

/// Group `g` of packet `p` lands at degree `359 - (6 * p + g)`: with its
/// own range and intensity where the header of the packet is valid, with
/// zeros where it is not.
pub proof fn lemma_decoded_group(frame: Seq<u8>, p: int, g: int)
    requires
        frame.len() == 2520,
        0 <= p < 60,
        0 <= g < 6,
    ensures
        header_valid(frame, p) ==> {
            &&& decoded(frame).ranges[359 - (6 * p + g)] == group_range(frame, p, g)
            &&& decoded(frame).intensities[359 - (6 * p + g)] == group_intensity(frame, p, g)
        },
        !header_valid(frame, p) ==> {
            &&& decoded(frame).ranges[359 - (6 * p + g)] == 0
            &&& decoded(frame).intensities[359 - (6 * p + g)] == 0
        },
{
    let d = 359 - (6 * p + g);
    assert(packet_of(d) == p && group_of(d) == g);
}

/// A frame whose 60 headers are all valid decodes in full: every degree
/// holds the range and the intensity of its group, and the speed is that of
/// the last packet.
pub proof fn lemma_decode_all_valid(frame: Seq<u8>)
    requires
        frame.len() == 2520,
        forall|p: int| 0 <= p < 60 ==> header_valid(frame, p),
    ensures
        forall|p: int, g: int|
            0 <= p < 60 && 0 <= g < 6 ==> decoded(frame).ranges[359 - (6 * p + g)]
                == #[trigger] group_range(frame, p, g),
        forall|p: int, g: int|
            0 <= p < 60 && 0 <= g < 6 ==> decoded(frame).intensities[359 - (6 * p + g)]
                == #[trigger] group_intensity(frame, p, g),
        decoded(frame).rpms == packet_rpms(frame, 59),
{
    assert forall|p: int, g: int| 0 <= p < 60 && 0 <= g < 6 implies decoded(frame).ranges[359 - (6
        * p + g)] == #[trigger] group_range(frame, p, g) by {
        lemma_decoded_group(frame, p, g);
    }
    assert forall|p: int, g: int| 0 <= p < 60 && 0 <= g < 6 implies decoded(frame).intensities[359
        - (6 * p + g)] == #[trigger] group_intensity(frame, p, g) by {
        lemma_decoded_group(frame, p, g);
    }
}

/// A frame in which the header of packet `bad`, and of no other, is not
/// valid: the six degrees of that packet hold zero, the 354 others decode
/// as if nothing were wrong, and the speed is that of the last packet that
/// is valid.
pub proof fn lemma_decode_one_corrupt(frame: Seq<u8>, bad: int)
    requires
        frame.len() == 2520,
        0 <= bad < 60,
        !header_valid(frame, bad),
        forall|p: int| 0 <= p < 60 && p != bad ==> header_valid(frame, p),
    ensures
        forall|d: int|
            359 - (6 * bad + 5) <= d <= 359 - 6 * bad ==> decoded(frame).ranges[d] == 0,
        forall|d: int|
            359 - (6 * bad + 5) <= d <= 359 - 6 * bad ==> decoded(frame).intensities[d] == 0,
        forall|p: int, g: int|
            0 <= p < 60 && p != bad && 0 <= g < 6 ==> decoded(frame).ranges[359 - (6 * p + g)]
                == #[trigger] group_range(frame, p, g),
        forall|p: int, g: int|
            0 <= p < 60 && p != bad && 0 <= g < 6 ==> decoded(frame).intensities[359 - (6 * p
                + g)] == #[trigger] group_intensity(frame, p, g),
        decoded(frame).rpms == packet_rpms(
            frame,
            if bad == 59 {
                58
            } else {
                59
            },
        ),
{
    assert forall|d: int| 359 - (6 * bad + 5) <= d <= 359 - 6 * bad implies decoded(
        frame,
    ).ranges[d] == 0 by {
        lemma_decoded_group(frame, bad, 359 - d - 6 * bad);
    }
    assert forall|d: int| 359 - (6 * bad + 5) <= d <= 359 - 6 * bad implies decoded(
        frame,
    ).intensities[d] == 0 by {
        lemma_decoded_group(frame, bad, 359 - d - 6 * bad);
    }
    assert forall|p: int, g: int| 0 <= p < 60 && p != bad && 0 <= g < 6 implies decoded(
        frame,
    ).ranges[359 - (6 * p + g)] == #[trigger] group_range(frame, p, g) by {
        lemma_decoded_group(frame, p, g);
    }
    assert forall|p: int, g: int| 0 <= p < 60 && p != bad && 0 <= g < 6 implies decoded(
        frame,
    ).intensities[359 - (6 * p + g)] == #[trigger] group_intensity(frame, p, g) by {
        lemma_decoded_group(frame, p, g);
    }
    if bad == 59 {
        assert(header_valid(frame, 58));
        assert(last_valid_packet(frame, 59) == Some(58int));
    }
}

} // verus!

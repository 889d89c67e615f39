//! What stands on the wire, byte by byte.

use crate::service::media;
use vstd::prelude::*;

verus! {

/// A payload carries media exactly when its first byte is 1 (video), 2 (audio) or 3 (parity) and
/// something follows; that is what it carries.
pub proof fn law_what_is_media(payload: Seq<u8>)
    ensures
        media::parsed_frame(payload) is Some <==> payload.len() >= 2 && 1 <= payload[0] <= 3,
        media::parsed_frame(payload) matches Some((tag, rtp)) ==> tag == payload[0] && rtp.len()
            == payload.len() - 1 && forall|i: int|
            0 <= i < rtp.len() ==> #[trigger] rtp[i] == payload[i + 1],
        media::TAG_VIDEO == 1 && media::TAG_AUDIO == 2 && media::TAG_FEC == 3,
{
}

/// A frame is the tag byte and the datagram behind it, and parses back to the two.
pub proof fn law_how_a_frame_is_laid_out(tag: u8, rtp: Seq<u8>)
    ensures
        ({
            let f = media::frame_bytes(tag, rtp);
            &&& f.len() == rtp.len() + 1
            &&& f[0] == tag
            &&& forall|i: int| 0 <= i < rtp.len() ==> f[i + 1] == #[trigger] rtp[i]
            &&& 1 <= tag <= 3 && rtp.len() >= 1 ==> media::parsed_frame(f) == Some((tag, rtp))
        }),
{
    assert(media::frame_bytes(tag, rtp).skip(1) =~= rtp);
}

/// Numbers go high byte first.
pub proof fn law_numbers_go_high_byte_first(hi: u8, lo: u8)
    ensures
        media::be16(hi, lo) == hi * 256 + lo,
{
}

/// No packet of a group is longer than the longest, and one is as long.
pub open spec fn is_longest(pkts: Seq<Seq<u8>>, len: nat) -> bool {
    &&& forall|i: int| 0 <= i < pkts.len() ==> (#[trigger] pkts[i]).len() <= len
    &&& exists|i: int| 0 <= i < pkts.len() && (#[trigger] pkts[i]).len() == len
}

/// Parity covers 1 to 255 packets of at most 1500 bytes, not all of them empty.
pub proof fn law_what_parity_covers(pkts: Seq<Seq<u8>>)
    ensures
        media::parity_covers(pkts) <==> {
            &&& 1 <= pkts.len() <= 255
            &&& forall|i: int| 0 <= i < pkts.len() ==> (#[trigger] pkts[i]).len() <= 1500
            &&& exists|i: int| 0 <= i < pkts.len() && (#[trigger] pkts[i]).len() >= 1
        },
        pkts.len() >= 1 ==> is_longest(pkts, media::longest(pkts)),
{
    media::lemma_longest(pkts);
    if pkts.len() >= 1 {
        let m = choose|i: int|
            0 <= i < pkts.len() && (#[trigger] pkts[i]).len() == media::longest(pkts);
        if exists|i: int| 0 <= i < pkts.len() && (#[trigger] pkts[i]).len() >= 1 {
            let i = choose|i: int| 0 <= i < pkts.len() && (#[trigger] pkts[i]).len() >= 1;
            assert(pkts[i].len() <= media::longest(pkts));
        }
    }
}

/// A parity body: the number of the group's first packet, how many there are, the XOR of their
/// lengths (high bytes first), then as many parity bytes as the longest packet has.
pub proof fn law_how_a_parity_body_is_laid_out(base: u16, pkts: Seq<Seq<u8>>)
    requires
        1 <= pkts.len() <= 255,
    ensures
        ({
            let b = media::parity_body(base, pkts);
            &&& b.len() == 5 + media::longest(pkts)
            &&& b[0] * 256 + b[1] == base
            &&& b[2] == pkts.len()
            &&& b[3] * 256 + b[4] == media::xor_lens(pkts)
            &&& forall|j: int|
                0 <= j < media::longest(pkts) ==> b[j + 5] == #[trigger] media::xor_at(pkts, j)
        }),
{
}

/// Byte `j` of a packet, 0 past its end.
pub open spec fn byte_at(pkt: Seq<u8>, j: int) -> u8 {
    if j < pkt.len() {
        pkt[j]
    } else {
        0
    }
}

/// Parity is the XOR: of one packet it is that packet and its length, and each packet more is
/// XORed in, byte by byte, with its length.
pub proof fn law_parity_is_the_xor(pkts: Seq<Seq<u8>>, pkt: Seq<u8>, j: int)
    requires
        0 <= j,
        pkt.len() <= 0xFFFF,
    ensures
        media::xor_at(seq![pkt], j) == byte_at(pkt, j),
        media::xor_lens(seq![pkt]) == pkt.len(),
        media::xor_at(pkts.push(pkt), j) == media::xor_at(pkts, j) ^ byte_at(pkt, j),
        media::xor_lens(pkts.push(pkt)) == media::xor_lens(pkts) ^ (pkt.len() as u16),
        media::xor_at(Seq::empty(), j) == 0,
        media::xor_lens(Seq::empty()) == 0,
{
    let one = seq![pkt];
    assert(one.drop_last() =~= Seq::empty());
    assert(one.last() == pkt);
    assert(media::xor_at(one.drop_last(), j) == 0);
    assert(media::xor_lens(one.drop_last()) == 0);
    media::lemma_xor8(byte_at(pkt, j), 0, 0);
    media::lemma_xor16(pkt.len() as u16, 0, 0);
    assert(pkts.push(pkt).drop_last() =~= pkts);
}

/// A parity body says something exactly when it has five bytes of header, a parity byte at least,
/// and does not cover nothing; what it says is what stands there.
pub proof fn law_what_a_parity_body_says(body: Seq<u8>)
    ensures
        media::parsed_parity(body) is Some <==> body.len() >= 6 && body[2] != 0,
        media::parsed_parity(body) matches Some(p) ==> {
            &&& p.base_seq == body[0] * 256 + body[1]
            &&& p.n == body[2]
            &&& p.len_xor == body[3] * 256 + body[4]
            &&& p.xor.len() == body.len() - 5
            &&& forall|j: int| 0 <= j < p.xor.len() ==> #[trigger] p.xor[j] == body[j + 5]
        },
{
}

} // verus!

//! Media-over-session framing: RTP datagrams (video + audio) carried INSIDE the encrypted
//! session instead of as separate plain UDP flows to extra ports, and the XOR parity that
//! repairs a lost video datagram with zero round-trips.
//!
//! Framing: one session payload per RTP datagram, `[tag][rtp…]`. The service's control
//! messages are JSON (first byte `{` = 0x7B), so a tag byte can never collide with them.
//!
//! Parity: every `n` consecutive video datagrams the host also sends one parity datagram,
//! `[TAG_FEC][base_seq u16 BE][n u8][len_xor u16 BE][parity bytes…]`: the XOR of the `n`
//! packets (each zero-padded to the longest) and the XOR of their lengths. A client that has
//! all but ONE of the group's packets rebuilds the missing one from the parity, exactly.

pub mod laws;

use std::collections::VecDeque;
use vstd::prelude::*;
use vstd::slice::{slice_subrange, slice_to_vec};

verus! {

/// Tag byte: a video RTP datagram follows.
pub const TAG_VIDEO: u8 = 0x01;

/// Tag byte: an audio (Opus) RTP datagram follows.
pub const TAG_AUDIO: u8 = 0x02;

/// Tag byte: an XOR parity datagram over the preceding video packets follows.
pub const TAG_FEC: u8 = 0x03;

/// Feature id: the host supports media-over-session.
pub const FEAT_MOS: &'static str = "mos";

/// Feature id: the host honors retransmit requests.
pub const FEAT_NACK: &'static str = "nack";

/// Feature id: the host can send FEC parity (the client still has to ask for it).
pub const FEAT_FEC: &'static str = "fec";

/// Largest RTP datagram a parity group covers (packets are padded to the longest).
pub const FEC_MAX_PACKET: usize = 1500;

// ── Framing ───────────────────────────────────────────────────────────────────────────

/// Whether a tag byte announces a media frame.
pub open spec fn is_media_tag(tag: u8) -> bool {
    tag == TAG_VIDEO || tag == TAG_AUDIO || tag == TAG_FEC
}

/// The session payload `[tag][rtp…]`.
pub open spec fn frame_bytes(tag: u8, rtp: Seq<u8>) -> Seq<u8> {
    seq![tag] + rtp
}

/// What a session payload carries as media, if it carries any.
pub open spec fn parsed_frame(payload: Seq<u8>) -> Option<(u8, Seq<u8>)> {
    if payload.len() >= 2 && is_media_tag(payload[0]) {
        Some((payload[0], payload.skip(1)))
    } else {
        None
    }
}

/// Build one media session-payload: `[tag][rtp…]`.
pub fn frame(tag: u8, rtp: &[u8]) -> (v: Vec<u8>)
    ensures
        v@ == frame_bytes(tag, rtp@),
{
    let mut v: Vec<u8> = Vec::with_capacity(rtp.len().saturating_add(1));
    v.push(tag);
    v.extend_from_slice(rtp);
    assert(v@ =~= frame_bytes(tag, rtp@));
    v
}

/// Parse a session payload as a media frame; `None` for anything else (JSON control
/// messages, junk). Empty RTP is rejected.
pub fn parse(payload: &[u8]) -> (r: Option<(u8, &[u8])>)
    ensures
        match r {
            Some((tag, rtp)) => parsed_frame(payload@) == Some((tag, rtp@)),
            None => parsed_frame(payload@) is None,
        },
{
    if payload.len() < 2 {
        return None;
    }
    let tag: u8 = payload[0];
    if tag == TAG_VIDEO || tag == TAG_AUDIO || tag == TAG_FEC {
        Some((tag, slice_subrange(payload, 1, payload.len())))
    } else {
        None
    }
}

/// A big-endian pair of bytes as a number.
pub open spec fn be16(hi: u8, lo: u8) -> u16 {
    (hi * 256 + lo) as u16
}

fn from_be16(hi: u8, lo: u8) -> (r: u16)
    ensures
        r == be16(hi, lo),
{
    hi as u16 * 256 + lo as u16
}

/// The RTP sequence number of a datagram (bytes 2..4, big-endian), used for the client's gap
/// detection (NACK + loss accounting). `None` if too short.
pub fn rtp_seq(rtp: &[u8]) -> (r: Option<u16>)
    ensures
        r == (if rtp@.len() < 4 {
            None
        } else {
            Some(be16(rtp@[2], rtp@[3]))
        }),
        r matches Some(seq) ==> seq == rtp@[2] * 256 + rtp@[3],
{
    if rtp.len() < 4 {
        return None;
    }
    Some(from_be16(rtp[2], rtp[3]))
}

/// Forward-distance from `a` to `b` in u16 sequence space (wrap-aware): how many steps
/// forward `b` is from `a`. Values ≥ 0x8000 mean `b` is actually BEHIND `a` (an old/reordered
/// packet).
pub fn seq_forward(a: u16, b: u16) -> (d: u16)
    ensures
        d as int == (b - a) % 0x10000,
        a.wrapping_add(d) == b,
{
    b.wrapping_sub(a)
}

// ── The XOR of a group of packets ─────────────────────────────────────────────────────

/// Byte `j` of a packet that is zero-padded past its end.
pub open spec fn padded(pkt: Seq<u8>, j: int) -> u8 {
    if 0 <= j < pkt.len() {
        pkt[j]
    } else {
        0
    }
}

/// The XOR of byte `j` over all packets of a group.
pub open spec fn xor_at(pkts: Seq<Seq<u8>>, j: int) -> u8
    decreases pkts.len(),
{
    if pkts.len() == 0 {
        0
    } else {
        xor_at(pkts.drop_last(), j) ^ padded(pkts.last(), j)
    }
}

/// The XOR of the (16-bit) lengths of all packets of a group.
pub open spec fn xor_lens(pkts: Seq<Seq<u8>>) -> u16
    decreases pkts.len(),
{
    if pkts.len() == 0 {
        0
    } else {
        xor_lens(pkts.drop_last()) ^ (pkts.last().len() as u16)
    }
}

/// The length of the longest packet of a group (0 for an empty group).
pub open spec fn longest(pkts: Seq<Seq<u8>>) -> nat
    decreases pkts.len(),
{
    if pkts.len() == 0 {
        0
    } else if longest(pkts.drop_last()) >= pkts.last().len() {
        longest(pkts.drop_last())
    } else {
        pkts.last().len()
    }
}

/// The bytes behind a slice of packets.
pub open spec fn packets(pkts: Seq<&[u8]>) -> Seq<Seq<u8>> {
    Seq::new(pkts.len(), |i: int| pkts[i]@)
}

/// A group that parity can cover: 1 to 255 packets, not all empty, none oversized.
pub open spec fn parity_covers(pkts: Seq<Seq<u8>>) -> bool {
    &&& 1 <= pkts.len() <= 255
    &&& 1 <= longest(pkts) <= FEC_MAX_PACKET
}

/// The parity bytes of a group: the XOR of its packets, each padded to the longest.
pub open spec fn parity_bytes(pkts: Seq<Seq<u8>>) -> Seq<u8> {
    Seq::new(longest(pkts), |j: int| xor_at(pkts, j))
}

/// The parity datagram's body (what follows `TAG_FEC`) of a group that starts at `base`.
pub open spec fn parity_body(base: u16, pkts: Seq<Seq<u8>>) -> Seq<u8> {
    seq![
        (base / 256) as u8,
        (base % 256) as u8,
        pkts.len() as u8,
        (xor_lens(pkts) / 256) as u8,
        (xor_lens(pkts) % 256) as u8,
    ] + parity_bytes(pkts)
}

pub(crate) proof fn lemma_xor8(a: u8, b: u8, c: u8)
    ensures
        (a ^ b) ^ c == (a ^ c) ^ b,
        a ^ 0 == a,
        0u8 ^ a == a,
        (a ^ b) ^ b == a,
        (a ^ b) ^ a == b,
{
    assert((a ^ b) ^ c == (a ^ c) ^ b) by (bit_vector);
    assert(a ^ 0 == a) by (bit_vector);
    assert(0u8 ^ a == a) by (bit_vector);
    assert((a ^ b) ^ b == a) by (bit_vector);
    assert((a ^ b) ^ a == b) by (bit_vector);
}

pub(crate) proof fn lemma_xor16(a: u16, b: u16, c: u16)
    ensures
        (a ^ b) ^ c == (a ^ c) ^ b,
        a ^ 0 == a,
        0u16 ^ a == a,
        (a ^ b) ^ b == a,
        (a ^ b) ^ a == b,
{
    assert((a ^ b) ^ c == (a ^ c) ^ b) by (bit_vector);
    assert(a ^ 0 == a) by (bit_vector);
    assert(0u16 ^ a == a) by (bit_vector);
    assert((a ^ b) ^ b == a) by (bit_vector);
    assert((a ^ b) ^ a == b) by (bit_vector);
}

/// Putting a packet where the group held an empty one XORs that packet in.
pub(crate) proof fn lemma_fill_slot(pkts: Seq<Seq<u8>>, i: int, pkt: Seq<u8>)
    requires
        0 <= i < pkts.len(),
        pkts[i].len() == 0,
    ensures
        forall|j: int| #[trigger]
            xor_at(pkts.update(i, pkt), j) == xor_at(pkts, j) ^ padded(pkt, j),
        xor_lens(pkts.update(i, pkt)) == xor_lens(pkts) ^ (pkt.len() as u16),
    decreases pkts.len(),
{
    let full = pkts.update(i, pkt);
    if i == pkts.len() - 1 {
        assert(full.drop_last() =~= pkts.drop_last());
        assert forall|j: int| #[trigger] xor_at(full, j) == xor_at(pkts, j) ^ padded(pkt, j) by {
            lemma_xor8(xor_at(pkts.drop_last(), j), padded(pkt, j), 0);
        }
        lemma_xor16(xor_lens(pkts.drop_last()), pkt.len() as u16, 0);
    } else {
        lemma_fill_slot(pkts.drop_last(), i, pkt);
        assert(full.drop_last() =~= pkts.drop_last().update(i, pkt));
        assert forall|j: int| #[trigger] xor_at(full, j) == xor_at(pkts, j) ^ padded(pkt, j) by {
            assert(xor_at(pkts.drop_last().update(i, pkt), j) == xor_at(pkts.drop_last(), j)
                ^ padded(pkt, j));
            lemma_xor8(
                xor_at(pkts.drop_last(), j),
                padded(pkt, j),
                padded(pkts.last(), j),
            );
        }
        lemma_xor16(xor_lens(pkts.drop_last()), pkt.len() as u16, pkts.last().len() as u16);
    }
}

/// No packet is longer than the longest.
pub(crate) proof fn lemma_longest(pkts: Seq<Seq<u8>>)
    ensures
        forall|i: int| 0 <= i < pkts.len() ==> (#[trigger] pkts[i]).len() <= longest(pkts),
        pkts.len() > 0 ==> exists|i: int|
            0 <= i < pkts.len() && (#[trigger] pkts[i]).len() == longest(pkts),
    decreases pkts.len(),
{
    if pkts.len() > 0 {
        let init = pkts.drop_last();
        lemma_longest(init);
        assert forall|i: int| 0 <= i < pkts.len() implies (#[trigger] pkts[i]).len() <= longest(
            pkts,
        ) by {
            if i < init.len() {
                assert(pkts[i] == init[i]);
            }
        }
        if init.len() > 0 && longest(init) >= pkts.last().len() {
            let i = choose|i: int| 0 <= i < init.len() && (#[trigger] init[i]).len() == longest(init);
            assert(pkts[i].len() == longest(pkts));
        } else {
            assert(pkts[pkts.len() - 1].len() == longest(pkts));
        }
    }
}

/// XOR a packet into a buffer (bytes past the buffer's end are left out).
fn xor_into(buf: &mut Vec<u8>, pkt: &[u8])
    ensures
        final(buf)@ == Seq::new(
            old(buf)@.len(),
            |j: int| old(buf)@[j] ^ padded(pkt@, j),
        ),
{
    let n: usize = if buf.len() < pkt.len() {
        buf.len()
    } else {
        pkt.len()
    };
    let mut j: usize = 0;
    while j < n
        invariant
            n <= buf@.len(),
            n <= pkt@.len(),
            n == buf@.len() || n == pkt@.len(),
            j <= n,
            buf@.len() == old(buf)@.len(),
            forall|k: int| 0 <= k < j ==> #[trigger] buf@[k] == old(buf)@[k] ^ pkt@[k],
            forall|k: int| j <= k < buf@.len() ==> #[trigger] buf@[k] == old(buf)@[k],
        decreases n - j,
    {
        let b: u8 = buf[j] ^ pkt[j];
        buf.set(j, b);
        j += 1;
    }
    proof {
        let want = Seq::new(old(buf)@.len(), |k: int| old(buf)@[k] ^ padded(pkt@, k));
        assert forall|k: int| 0 <= k < buf@.len() implies #[trigger] buf@[k] == want[k] by {
            lemma_xor8(old(buf)@[k], 0, 0);
        }
        assert(buf@ =~= want);
    }
}

/// Build one parity session-payload over `pkts` (consecutive video datagrams starting at
/// `base_seq`). `None` for an empty group or one with an oversized packet.
pub fn parity_frame(base_seq: u16, pkts: &[&[u8]]) -> (r: Option<Vec<u8>>)
    ensures
        match r {
            Some(v) => parity_covers(packets(pkts@)) && v@ == frame_bytes(
                TAG_FEC,
                parity_body(base_seq, packets(pkts@)),
            ),
            None => !parity_covers(packets(pkts@)),
        },
{
    let ghost all = packets(pkts@);
    if pkts.len() == 0 || pkts.len() > 255 {
        return None;
    }
    let mut max: usize = 0;
    let mut len_xor: u16 = 0;
    let mut i: usize = 0;
    while i < pkts.len()
        invariant
            all == packets(pkts@),
            i <= pkts@.len(),
            max == longest(all.take(i as int)),
            len_xor == xor_lens(all.take(i as int)),
        decreases pkts@.len() - i,
    {
        let p: &[u8] = pkts[i];
        assert(all.take(i + 1).drop_last() =~= all.take(i as int));
        assert(all.take(i + 1).last() == p@);
        if p.len() > max {
            max = p.len();
        }
        len_xor = len_xor ^ (p.len() as u16);
        i += 1;
    }
    assert(all.take(i as int) =~= all);
    if max == 0 || max > FEC_MAX_PACKET {
        return None;
    }
    let mut parity: Vec<u8> = Vec::new();
    parity.resize(max, 0);
    let mut i: usize = 0;
    assert(parity@ =~= Seq::new(max as nat, |j: int| xor_at(all.take(0), j)));
    while i < pkts.len()
        invariant
            all == packets(pkts@),
            i <= pkts@.len(),
            parity@ == Seq::new(max as nat, |j: int| xor_at(all.take(i as int), j)),
        decreases pkts@.len() - i,
    {
        let p: &[u8] = pkts[i];
        assert(all.take(i + 1).drop_last() =~= all.take(i as int));
        assert(all.take(i + 1).last() == p@);
        xor_into(&mut parity, p);
        assert(parity@ =~= Seq::new(max as nat, |j: int| xor_at(all.take(i + 1), j)));
        i += 1;
    }
    assert(all.take(i as int) =~= all);
    let mut out: Vec<u8> = Vec::with_capacity(6 + max);
    out.push(TAG_FEC);
    out.push((base_seq / 256) as u8);
    out.push((base_seq % 256) as u8);
    out.push(pkts.len() as u8);
    out.push((len_xor / 256) as u8);
    out.push((len_xor % 256) as u8);
    out.extend_from_slice(parity.as_slice());
    assert(out@ =~= frame_bytes(TAG_FEC, parity_body(base_seq, all)));
    Some(out)
}

// ── Parity on the receiving side ──────────────────────────────────────────────────────

/// A parsed parity datagram (borrowed from the session payload).
#[derive(Clone, Copy, Debug, PartialEq, Eq)]
pub struct Parity<'a> {
    /// First sequence number of the group; the group is `base..base+n` (wrap-aware).
    pub base_seq: u16,
    pub n: u8,
    /// XOR of the group's packet lengths.
    pub len_xor: u16,
    /// XOR of the group's packets, each zero-padded to the longest.
    pub xor: &'a [u8],
}

/// What a parity datagram says, as plain values.
pub struct ParityView {
    pub base_seq: u16,
    pub n: u8,
    pub len_xor: u16,
    pub xor: Seq<u8>,
}

impl<'a> View for Parity<'a> {
    type V = ParityView;

    open spec fn view(&self) -> ParityView {
        ParityView {
            base_seq: self.base_seq,
            n: self.n,
            len_xor: self.len_xor,
            xor: self.xor@,
        }
    }
}

/// What a parity body says: a five-byte header, at least one parity byte, `n` not 0.
pub open spec fn parsed_parity(body: Seq<u8>) -> Option<ParityView> {
    if body.len() < 6 || body[2] == 0 {
        None
    } else {
        Some(
            ParityView {
                base_seq: be16(body[0], body[1]),
                n: body[2],
                len_xor: be16(body[3], body[4]),
                xor: body.skip(5),
            },
        )
    }
}

/// Parse a parity datagram's body (the bytes after `TAG_FEC`, as `parse` returns them).
pub fn parse_parity(body: &[u8]) -> (r: Option<Parity<'_>>)
    ensures
        match r {
            Some(p) => parsed_parity(body@) == Some(p@),
            None => parsed_parity(body@) is None,
        },
{
    if body.len() < 6 {
        return None;
    }
    let base_seq: u16 = from_be16(body[0], body[1]);
    let n: u8 = body[2];
    let len_xor: u16 = from_be16(body[3], body[4]);
    if n == 0 {
        return None;
    }
    Some(Parity { base_seq, n, len_xor, xor: slice_subrange(body, 5, body.len()) })
}

/// The position of a sequence number in a group that starts at `base`.
pub open spec fn slot_of(base: u16, seq: u16) -> int {
    seq.wrapping_sub(base) as int
}

/// The packet that `present` holds first for slot `i` of the group that starts at `base`.
pub open spec fn first_for(present: Seq<(u16, Seq<u8>)>, base: u16, i: int) -> Option<Seq<u8>>
    decreases present.len(),
{
    if present.len() == 0 {
        None
    } else {
        let earlier = first_for(present.drop_last(), base, i);
        if earlier is None && slot_of(base, present.last().0) == i {
            Some(present.last().1)
        } else {
            earlier
        }
    }
}

/// The group as far as `present` holds it, an empty packet in each slot that it does not.
pub open spec fn held(present: Seq<(u16, Seq<u8>)>, base: u16, n: nat) -> Seq<Seq<u8>> {
    Seq::new(
        n,
        |i: int|
            match first_for(present, base, i) {
                Some(pkt) => pkt,
                None => Seq::<u8>::empty(),
            },
    )
}

/// Slot `i` is the only one of the group that `present` holds no packet for.
pub open spec fn only_gap(present: Seq<(u16, Seq<u8>)>, base: u16, n: nat, i: int) -> bool {
    &&& 0 <= i < n
    &&& first_for(present, base, i) is None
    &&& forall|k: int|
        0 <= k < n && k != i ==> (#[trigger] first_for(present, base, k)) is Some
}

/// What the parity and the packets at hand say of the missing packet: its length, and its
/// bytes padded to the group's longest.
pub open spec fn missing_len(p: ParityView, present: Seq<(u16, Seq<u8>)>) -> u16 {
    p.len_xor ^ xor_lens(held(present, p.base_seq, p.n as nat))
}

pub open spec fn missing_bytes(p: ParityView, present: Seq<(u16, Seq<u8>)>) -> Seq<u8> {
    let group = held(present, p.base_seq, p.n as nat);
    Seq::new(p.xor.len(), |j: int| p.xor[j] ^ xor_at(group, j))
}

/// The repair: with exactly one packet of the group absent, and a plausible length, that
/// packet and its sequence number.
pub open spec fn recovered(p: ParityView, present: Seq<(u16, Seq<u8>)>) -> Option<
    (u16, Seq<u8>),
> {
    let len = missing_len(p, present);
    if (exists|i: int| only_gap(present, p.base_seq, p.n as nat, i)) && 1 <= len <= p.xor.len() {
        let i = choose|i: int| only_gap(present, p.base_seq, p.n as nat, i);
        Some((p.base_seq.wrapping_add(i as u16), missing_bytes(p, present).take(len as int)))
    } else {
        None
    }
}

/// The sequence numbers and bytes behind a slice of numbered packets.
pub open spec fn numbered(present: Seq<(u16, &[u8])>) -> Seq<(u16, Seq<u8>)> {
    Seq::new(present.len(), |k: int| (present[k].0, present[k].1@))
}

/// Rebuild the one missing packet of `parity`'s group. `present` holds the group's packets we
/// do have, keyed by sequence number (order irrelevant; extras ignored). Returns
/// `(seq, packet)` when exactly one packet of the group is absent, `None` when the group is
/// complete or more than one is missing (XOR can't repair that).
pub fn recover(parity: &Parity<'_>, present: &[(u16, &[u8])]) -> (r: Option<(u16, Vec<u8>)>)
    ensures
        match r {
            Some((seq, pkt)) => recovered(parity@, numbered(present@)) == Some((seq, pkt@)),
            None => recovered(parity@, numbered(present@)) is None,
        },
{
    let ghost all = numbered(present@);
    let ghost base = parity.base_seq;
    let n: usize = parity.n as usize;
    let mut have: Vec<bool> = Vec::new();
    have.resize(n, false);
    let mut buf: Vec<u8> = slice_to_vec(parity.xor);
    let mut len: u16 = parity.len_xor;
    let mut k: usize = 0;
    proof {
        lemma_nothing_held(all.take(0), base, n as nat);
        lemma_xor16(parity.len_xor, 0, 0);
        assert forall|j: int| 0 <= j < buf@.len() implies #[trigger] buf@[j] == parity.xor@[j]
            ^ xor_at(held(all.take(0), base, n as nat), j) by {
            lemma_xor8(parity.xor@[j], 0, 0);
        }
    }
    while k < present.len()
        invariant
            all == numbered(present@),
            base == parity.base_seq,
            n == parity.n,
            k <= present@.len(),
            have@.len() == n,
            forall|i: int|
                0 <= i < n ==> (#[trigger] have@[i] <==> first_for(all.take(k as int), base, i) is Some),
            buf@ == Seq::new(
                parity.xor@.len(),
                |j: int| parity.xor@[j] ^ xor_at(held(all.take(k as int), base, n as nat), j),
            ),
            len == parity.len_xor ^ xor_lens(held(all.take(k as int), base, n as nat)),
        decreases present@.len() - k,
    {
        let seq: u16 = present[k].0;
        let pkt: &[u8] = present[k].1;
        let idx: usize = seq.wrapping_sub(parity.base_seq) as usize;
        let ghost before = held(all.take(k as int), base, n as nat);
        let ghost after = held(all.take(k + 1), base, n as nat);
        assert(all.take(k + 1).drop_last() =~= all.take(k as int));
        assert(all.take(k + 1).last() == (seq, pkt@));
        if idx < n && !have[idx] {
            have.set(idx, true);
            len = len ^ (pkt.len() as u16);
            xor_into(&mut buf, pkt);
            proof {
                assert(before[idx as int].len() == 0);
                assert(after =~= before.update(idx as int, pkt@));
                lemma_fill_slot(before, idx as int, pkt@);
                assert forall|j: int| 0 <= j < buf@.len() implies #[trigger] buf@[j]
                    == parity.xor@[j] ^ xor_at(after, j) by {
                    lemma_xor8_assoc(parity.xor@[j], xor_at(before, j), padded(pkt@, j));
                }
                lemma_xor16_assoc(parity.len_xor, xor_lens(before), pkt@.len() as u16);
            }
        } else {
            assert(after =~= before);
        }
        k += 1;
    }
    assert(all.take(k as int) =~= all);
    // The slots that are still empty: none, one, or several.
    let mut gap: Option<usize> = None;
    let mut i: usize = 0;
    while i < n
        invariant
            all == numbered(present@),
            base == parity.base_seq,
            n == parity.n,
            i <= n,
            have@.len() == n,
            forall|s: int|
                0 <= s < n ==> (#[trigger] have@[s] <==> first_for(all, base, s) is Some),
            match gap {
                Some(g) => g < i && !have@[g as int] && forall|s: int|
                    0 <= s < i && s != g ==> #[trigger] have@[s],
                None => forall|s: int| 0 <= s < i ==> #[trigger] have@[s],
            },
        decreases n - i,
    {
        if !have[i] {
            if let Some(g) = gap {
                proof {
                    lemma_two_gaps(all, base, n as nat, g as int, i as int);
                }
                return None;
            }
            gap = Some(i);
        }
        i += 1;
    }
    let g: usize = match gap {
        Some(g) => g,
        None => {
            proof {
                assert forall|s: int| !only_gap(all, base, n as nat, s) by {
                    if 0 <= s < n {
                        assert(have@[s]);
                    }
                }
            }
            return None;
        },
    };
    proof {
        assert forall|s: int| 0 <= s < n && s != g implies (#[trigger] first_for(
            all,
            base,
            s,
        )) is Some by {
            assert(have@[s]);
        }
        assert(only_gap(all, base, n as nat, g as int));
        lemma_one_gap(all, base, n as nat, g as int);
    }
    let len: usize = len as usize;
    if len == 0 || len > buf.len() {
        return None;
    }
    assert(buf@ =~= missing_bytes(parity@, all));
    buf.truncate(len);
    Some((parity.base_seq.wrapping_add(g as u16), buf))
}

proof fn lemma_xor8_assoc(a: u8, b: u8, c: u8)
    ensures
        (a ^ b) ^ c == a ^ (b ^ c),
{
    assert((a ^ b) ^ c == a ^ (b ^ c)) by (bit_vector);
}

proof fn lemma_xor16_assoc(a: u16, b: u16, c: u16)
    ensures
        (a ^ b) ^ c == a ^ (b ^ c),
{
    assert((a ^ b) ^ c == a ^ (b ^ c)) by (bit_vector);
}

/// A group of empty packets XORs to zero.
proof fn lemma_empty_group(pkts: Seq<Seq<u8>>)
    requires
        forall|i: int| 0 <= i < pkts.len() ==> (#[trigger] pkts[i]).len() == 0,
    ensures
        forall|j: int| #[trigger] xor_at(pkts, j) == 0,
        xor_lens(pkts) == 0,
    decreases pkts.len(),
{
    if pkts.len() > 0 {
        lemma_empty_group(pkts.drop_last());
        assert forall|j: int| #[trigger] xor_at(pkts, j) == 0 by {
            assert(xor_at(pkts.drop_last(), j) == 0);
            lemma_xor8(0, 0, 0);
        }
        lemma_xor16(0, 0, 0);
    }
}

proof fn lemma_nothing_held(present: Seq<(u16, Seq<u8>)>, base: u16, n: nat)
    requires
        present.len() == 0,
    ensures
        forall|j: int| #[trigger] xor_at(held(present, base, n), j) == 0,
        xor_lens(held(present, base, n)) == 0,
{
    lemma_empty_group(held(present, base, n));
}

/// At most one slot can be the only gap.
pub(crate) proof fn lemma_one_gap(present: Seq<(u16, Seq<u8>)>, base: u16, n: nat, g: int)
    requires
        only_gap(present, base, n, g),
    ensures
        forall|i: int| #[trigger] only_gap(present, base, n, i) ==> i == g,
{
    assert forall|i: int| #[trigger] only_gap(present, base, n, i) implies i == g by {
        if i != g {
            assert(first_for(present, base, g) is Some);
        }
    }
}

/// With two empty slots, none is the only gap.
pub(crate) proof fn lemma_two_gaps(present: Seq<(u16, Seq<u8>)>, base: u16, n: nat, g: int, h: int)
    requires
        0 <= g < h < n,
        first_for(present, base, g) is None,
        first_for(present, base, h) is None,
    ensures
        forall|i: int| !#[trigger] only_gap(present, base, n, i),
{
    assert forall|i: int| !#[trigger] only_gap(present, base, n, i) by {
        if only_gap(present, base, n, i) {
            if i != g {
                assert(first_for(present, base, g) is Some);
            } else {
                assert(first_for(present, base, h) is Some);
            }
        }
    }
}

// ── The host's side: grouping ─────────────────────────────────────────────────────────

/// Host side: groups outgoing video datagrams and emits a parity frame every `n`.
/// `n == 0` disables FEC (the group is dropped). A sequence gap at the intake (the encoder
/// restarted) restarts the group.
#[derive(Debug)]
pub struct FecEncoder {
    n: u8,
    /// The size of the open group: `n` when it was opened.
    size: u8,
    group: Vec<Vec<u8>>,
    base: u16,
    next: Option<u16>,
}

/// What an encoder holds, as plain values.
pub struct EncoderView {
    /// The group size from the next group on (0 = off).
    pub n: u8,
    /// The size of the open group.
    pub size: u8,
    /// The packets of the open group.
    pub group: Seq<Seq<u8>>,
    /// The sequence number of the open group's first packet.
    pub base: u16,
    /// The sequence number that continues the stream.
    pub next: Option<u16>,
}

/// A packet that the encoder takes into a group.
pub open spec fn groupable(rtp: Seq<u8>) -> bool {
    1 <= rtp.len() <= FEC_MAX_PACKET
}

impl EncoderView {
    /// The open group is short of its size, consecutive, and of packets that parity covers.
    pub open spec fn wf(self) -> bool {
        &&& self.group.len() == 0 || self.group.len() < self.size
        &&& forall|i: int| 0 <= i < self.group.len() ==> groupable(#[trigger] self.group[i])
        &&& self.group.len() > 0 ==> self.next == Some(
            self.base.wrapping_add(self.group.len() as u16),
        )
    }

    /// The group that packet `seq` lands in: the open one if it continues the stream, else a
    /// new one.
    pub open spec fn group_for(self, seq: u16) -> Seq<Seq<u8>> {
        if self.next == Some(seq) {
            self.group
        } else {
            Seq::empty()
        }
    }

    /// The first sequence number of that group.
    pub open spec fn base_for(self, seq: u16) -> u16 {
        if self.group_for(seq).len() == 0 {
            seq
        } else {
            self.base
        }
    }

    /// The size of that group: what it was opened with, or the current size.
    pub open spec fn size_for(self, seq: u16) -> u8 {
        if self.group_for(seq).len() == 0 {
            self.n
        } else {
            self.size
        }
    }

    /// The encoder with another group size, which takes effect at the next group boundary. Off
    /// is at once: the group is dropped.
    pub open spec fn resized(self, n: u8) -> EncoderView {
        if n == 0 {
            EncoderView { n: 0, group: Seq::empty(), next: None, ..self }
        } else {
            EncoderView { n, ..self }
        }
    }

    /// The encoder after one outgoing packet, and the parity payload that it emits, if any.
    pub open spec fn pushed(self, seq: u16, rtp: Seq<u8>) -> (EncoderView, Option<Seq<u8>>) {
        if self.n == 0 || !groupable(rtp) {
            (self, None)
        } else {
            let group = self.group_for(seq).push(rtp);
            let base = self.base_for(seq);
            let size = self.size_for(seq);
            let full = group.len() >= size;
            (
                EncoderView {
                    n: self.n,
                    size,
                    group: if full {
                        Seq::empty()
                    } else {
                        group
                    },
                    base,
                    next: Some(seq.wrapping_add(1)),
                },
                if full {
                    Some(frame_bytes(TAG_FEC, parity_body(base, group)))
                } else {
                    None
                },
            )
        }
    }
}

impl View for FecEncoder {
    type V = EncoderView;

    closed spec fn view(&self) -> EncoderView {
        EncoderView {
            n: self.n,
            size: self.size,
            group: Seq::new(self.group@.len(), |i: int| self.group@[i]@),
            base: self.base,
            next: self.next,
        }
    }
}

impl Default for FecEncoder {
    fn default() -> (e: Self)
        ensures
            e@ == (EncoderView { n: 0, size: 0, group: Seq::empty(), base: 0, next: None }),
            e@.wf(),
    {
        Self::new(0)
    }
}

impl FecEncoder {
    pub fn new(n: u8) -> (e: Self)
        ensures
            e@ == (EncoderView { n, size: n, group: Seq::empty(), base: 0, next: None }),
            e@.wf(),
    {
        let e = FecEncoder { n, size: n, group: Vec::new(), base: 0, next: None };
        assert(e@.group =~= Seq::empty());
        e
    }

    pub fn n(&self) -> (n: u8)
        ensures
            n == self@.n,
    {
        self.n
    }

    /// Change the group size live (takes effect at the next group boundary).
    pub fn set_n(&mut self, n: u8)
        ensures
            final(self)@ == old(self)@.resized(n),
            old(self)@.wf() ==> final(self)@.wf(),
    {
        self.n = n;
        if n == 0 {
            self.group.clear();
            self.next = None;
        }
        assert(self@.group =~= old(self)@.resized(n).group);
    }

    /// One outgoing video datagram (after it was sent). Returns the parity session-payload to
    /// send when this packet completes a group.
    pub fn push(&mut self, seq: u16, rtp: &[u8]) -> (r: Option<Vec<u8>>)
        requires
            old(self)@.wf(),
        ensures
            final(self)@.wf(),
            final(self)@ == old(self)@.pushed(seq, rtp@).0,
            match r {
                Some(v) => old(self)@.pushed(seq, rtp@).1 == Some(v@),
                None => old(self)@.pushed(seq, rtp@).1 is None,
            },
    {
        if self.n == 0 || rtp.len() == 0 || rtp.len() > FEC_MAX_PACKET {
            return None;
        }
        let ghost was = old(self)@;
        let follows: bool = match self.next {
            Some(next) => next == seq,
            None => false,
        };
        if !follows {
            // First packet, or a gap (encoder restart / a packet the intake never saw).
            self.group.clear();
        }
        if self.group.len() == 0 {
            self.base = seq;
            self.size = self.n;
        }
        assert(self@.group =~= was.group_for(seq));
        self.next = Some(seq.wrapping_add(1));
        self.group.push(slice_to_vec(rtp));
        let ghost group = was.group_for(seq).push(rtp@);
        assert(self@.group =~= group);
        proof {
            assert forall|i: int| 0 <= i < group.len() implies groupable(#[trigger] group[i]) by {
                if i < group.len() - 1 {
                    assert(group[i] == was.group_for(seq)[i]);
                }
            }
        }
        if self.group.len() >= self.size as usize {
            let mut refs: Vec<&[u8]> = Vec::new();
            let mut i: usize = 0;
            while i < self.group.len()
                invariant
                    self@.group == group,
                    i <= self.group@.len(),
                    refs@.len() == i,
                    forall|k: int| 0 <= k < i ==> (#[trigger] refs@[k])@ == group[k],
                decreases self.group@.len() - i,
            {
                let pkt: &[u8] = self.group[i].as_slice();
                assert(pkt@ == self@.group[i as int]);
                refs.push(pkt);
                i += 1;
            }
            assert(packets(refs@) =~= group);
            proof {
                lemma_longest(group);
            }
            let out: Option<Vec<u8>> = parity_frame(self.base, refs.as_slice());
            self.group.clear();
            assert(self@.group =~= Seq::empty());
            return out;
        }
        None
    }
}

// ── The client's side: repair ─────────────────────────────────────────────────────────

/// Client side: keeps the recent video datagrams by sequence and repairs from parity.
#[derive(Debug)]
pub struct FecDecoder {
    ring: VecDeque<(u16, Vec<u8>)>,
    cap: usize,
    /// Group size seen in the latest parity (0 = none yet) — the controller deducts the
    /// parity share from the encoder rate.
    last_n: u8,
}

/// What a decoder holds, as plain values.
pub struct DecoderView {
    /// The remembered packets, oldest first.
    pub ring: Seq<(u16, Seq<u8>)>,
    /// How many packets are remembered at most.
    pub cap: nat,
    pub last_n: u8,
}

impl DecoderView {
    pub open spec fn wf(self) -> bool {
        &&& self.cap >= 8
        &&& self.ring.len() <= self.cap
    }

    /// The decoder with one more packet remembered, the oldest forgotten when it is full.
    pub open spec fn remembering(self, seq: u16, rtp: Seq<u8>) -> DecoderView {
        let kept = if self.ring.len() >= self.cap {
            self.ring.skip(1)
        } else {
            self.ring
        };
        DecoderView { ring: kept.push((seq, rtp)), ..self }
    }

    /// The packet that a parity body repairs from what is remembered.
    pub open spec fn repair(self, body: Seq<u8>) -> Option<(u16, Seq<u8>)> {
        match parsed_parity(body) {
            Some(p) => recovered(p, self.ring),
            None => None,
        }
    }

    /// The decoder after a parity body.
    pub open spec fn after_parity(self, body: Seq<u8>) -> DecoderView {
        match parsed_parity(body) {
            Some(p) => {
                let seen = DecoderView { last_n: p.n, ..self };
                match recovered(p, self.ring) {
                    Some((seq, pkt)) => seen.remembering(seq, pkt),
                    None => seen,
                }
            },
            None => self,
        }
    }
}

impl View for FecDecoder {
    type V = DecoderView;

    closed spec fn view(&self) -> DecoderView {
        DecoderView {
            ring: Seq::new(self.ring@.len(), |i: int| (self.ring@[i].0, self.ring@[i].1@)),
            cap: self.cap as nat,
            last_n: self.last_n,
        }
    }
}

impl Default for FecDecoder {
    fn default() -> (d: Self)
        ensures
            d@ == (DecoderView { ring: Seq::empty(), cap: 512, last_n: 0 }),
            d@.wf(),
    {
        Self::new(512)
    }
}

impl FecDecoder {
    pub fn new(cap: usize) -> (d: Self)
        ensures
            d@ == (DecoderView {
                ring: Seq::empty(),
                cap: if cap < 8 {
                    8
                } else {
                    cap as nat
                },
                last_n: 0,
            }),
            d@.wf(),
    {
        let room: usize = if cap < 4096 {
            cap
        } else {
            4096
        };
        let cap: usize = if cap < 8 {
            8
        } else {
            cap
        };
        let d = FecDecoder { ring: VecDeque::with_capacity(room), cap, last_n: 0 };
        assert(d@.ring =~= Seq::empty());
        d
    }

    pub fn last_n(&self) -> (n: u8)
        ensures
            n == self@.last_n,
    {
        self.last_n
    }

    /// Remember a received (or already repaired) video datagram.
    pub fn on_packet(&mut self, seq: u16, rtp: &[u8])
        requires
            old(self)@.wf(),
        ensures
            final(self)@.wf(),
            final(self)@ == old(self)@.remembering(seq, rtp@),
            final(self)@.ring.last() == (seq, rtp@),
            final(self)@.ring == laws::repair::last_of(
                old(self)@.ring.push((seq, rtp@)),
                old(self)@.cap,
            ),
    {
        if self.ring.len() >= self.cap {
            self.ring.pop_front();
        }
        self.ring.push_back((seq, slice_to_vec(rtp)));
        assert(self@.ring =~= old(self)@.remembering(seq, rtp@).ring);
        assert(self@.ring =~= laws::repair::last_of(old(self)@.ring.push((seq, rtp@)), self@.cap));
    }

    /// A parity datagram arrived: rebuild the group's single missing packet, if any. The
    /// rebuilt packet is also remembered so a later parity over an overlapping range sees it.
    pub fn on_parity(&mut self, body: &[u8]) -> (r: Option<(u16, Vec<u8>)>)
        requires
            old(self)@.wf(),
        ensures
            final(self)@.wf(),
            final(self)@ == old(self)@.after_parity(body@),
            match r {
                Some((seq, pkt)) => old(self)@.repair(body@) == Some((seq, pkt@)),
                None => old(self)@.repair(body@) is None,
            },
    {
        let p = match parse_parity(body) {
            Some(p) => p,
            None => return None,
        };
        self.last_n = p.n;
        let mut present: Vec<(u16, &[u8])> = Vec::new();
        let mut i: usize = 0;
        while i < self.ring.len()
            invariant
                i <= self.ring@.len(),
                self@.ring == old(self)@.ring,
                numbered(present@) == self@.ring.take(i as int),
            decreases self.ring@.len() - i,
        {
            let pkt: &(u16, Vec<u8>) = &self.ring[i];
            let ghost before = numbered(present@);
            present.push((pkt.0, pkt.1.as_slice()));
            assert(numbered(present@) =~= before.push(self@.ring[i as int]));
            assert(self@.ring.take(i + 1) =~= self@.ring.take(i as int).push(self@.ring[i as int]));
            i += 1;
        }
        assert(numbered(present@) =~= self@.ring);
        let got: Option<(u16, Vec<u8>)> = recover(&p, present.as_slice());
        match got {
            Some((seq, pkt)) => {
                self.on_packet(seq, pkt.as_slice());
                Some((seq, pkt))
            },
            None => None,
        }
    }

    /// The stream restarted (new sequence base): forget the old packets.
    pub fn reset(&mut self)
        ensures
            final(self)@ == (DecoderView { ring: Seq::empty(), ..old(self)@ }),
            old(self)@.wf() ==> final(self)@.wf(),
    {
        self.ring.clear();
        assert(self@.ring =~= Seq::empty());
    }
}

} // verus!

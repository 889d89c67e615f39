//! What the framing and the parity promise as a whole.

pub mod repair;
pub mod wire;

use super::{DecoderView, EncoderView, ParityView};
use crate::service::media;
use vstd::prelude::*;

verus! {

/// A framed datagram parses back to its tag and bytes.
pub proof fn law_frame_round_trip(tag: u8, rtp: Seq<u8>)
    requires
        media::is_media_tag(tag),
        rtp.len() >= 1,
    ensures
        media::parsed_frame(media::frame_bytes(tag, rtp)) == Some((tag, rtp)),
{
    assert(media::frame_bytes(tag, rtp).skip(1) =~= rtp);
}

/// A JSON control message (it starts with `{`) is never taken for media.
pub proof fn law_json_is_never_media(payload: Seq<u8>)
    requires
        payload.len() > 0,
        payload[0] == 0x7B,
    ensures
        media::parsed_frame(payload) is None,
{
}

/// The parity view of a group.
pub open spec fn parity_of(base: u16, pkts: Seq<Seq<u8>>) -> ParityView {
    ParityView {
        base_seq: base,
        n: pkts.len() as u8,
        len_xor: media::xor_lens(pkts),
        xor: media::parity_bytes(pkts),
    }
}

/// A parity frame parses as media, and its body parses back to the group it covers.
pub proof fn law_parity_round_trip(base: u16, pkts: Seq<Seq<u8>>)
    requires
        media::parity_covers(pkts),
    ensures
        media::parsed_frame(media::frame_bytes(media::TAG_FEC, media::parity_body(base, pkts))) == Some(
            (media::TAG_FEC, media::parity_body(base, pkts)),
        ),
        media::parsed_parity(media::parity_body(base, pkts)) == Some(parity_of(base, pkts)),
{
    let body = media::parity_body(base, pkts);
    law_frame_round_trip(media::TAG_FEC, body);
    assert(body.skip(5) =~= media::parity_bytes(pkts));
}

/// Every packet of the group but the one in slot `i` is at hand, and that one is not.
pub open spec fn lost_only(
    present: Seq<(u16, Seq<u8>)>,
    base: u16,
    pkts: Seq<Seq<u8>>,
    i: int,
) -> bool {
    &&& 0 <= i < pkts.len()
    &&& media::first_for(present, base, i) is None
    &&& forall|k: int|
        0 <= k < pkts.len() && k != i ==> (#[trigger] media::first_for(present, base, k)) == Some(pkts[k])
}

/// One lost packet is rebuilt exactly: its sequence number, its length and its bytes.
pub proof fn law_one_loss_is_repaired(
    base: u16,
    pkts: Seq<Seq<u8>>,
    present: Seq<(u16, Seq<u8>)>,
    i: int,
)
    requires
        media::parity_covers(pkts),
        lost_only(present, base, pkts, i),
        pkts[i].len() >= 1,
    ensures
        media::recovered(parity_of(base, pkts), present) == Some((base.wrapping_add(i as u16), pkts[i])),
{
    let p = parity_of(base, pkts);
    let n = pkts.len();
    let group = media::held(present, base, n);
    assert(p.n as nat == n);
    assert forall|k: int| 0 <= k < n && k != i implies (#[trigger] media::first_for(
        present,
        base,
        k,
    )) is Some by {}
    assert(media::only_gap(present, base, n, i));
    media::lemma_one_gap(present, base, n, i);
    // The group at hand is the group with slot `i` emptied.
    assert(group =~= pkts.update(i, Seq::empty()));
    assert(group.update(i, pkts[i]) =~= pkts);
    media::lemma_fill_slot(group, i, pkts[i]);
    media::lemma_longest(pkts);
    media::lemma_xor16(media::xor_lens(group), pkts[i].len() as u16, 0);
    assert(media::missing_len(p, present) == pkts[i].len());
    let bytes = media::missing_bytes(p, present).take(pkts[i].len() as int);
    assert forall|j: int| 0 <= j < pkts[i].len() implies #[trigger] bytes[j] == pkts[i][j] by {
        assert(media::xor_at(group.update(i, pkts[i]), j) == media::xor_at(group, j) ^ media::padded(pkts[i], j));
        media::lemma_xor8(media::xor_at(group, j), media::padded(pkts[i], j), 0);
    }
    assert(bytes =~= pkts[i]);
}

/// A complete group needs no repair and gets none.
pub proof fn law_complete_group_is_left_alone(p: ParityView, present: Seq<(u16, Seq<u8>)>)
    requires
        forall|k: int|
            0 <= k < p.n ==> (#[trigger] media::first_for(present, p.base_seq, k)) is Some,
    ensures
        media::recovered(p, present) is None,
{
    assert forall|i: int| !#[trigger] media::only_gap(present, p.base_seq, p.n as nat, i) by {
        if 0 <= i < p.n {
            assert(media::first_for(present, p.base_seq, i) is Some);
        }
    }
}

/// Two lost packets of one group cannot be repaired.
pub proof fn law_two_losses_are_not_repaired(
    p: ParityView,
    present: Seq<(u16, Seq<u8>)>,
    g: int,
    h: int,
)
    requires
        0 <= g < h < p.n,
        media::first_for(present, p.base_seq, g) is None,
        media::first_for(present, p.base_seq, h) is None,
    ensures
        media::recovered(p, present) is None,
{
    media::lemma_two_gaps(present, p.base_seq, p.n as nat, g, h);
}

/// Only the packet that is held first for each slot counts: order, duplicates and packets of
/// other groups change nothing.
pub proof fn law_only_the_group_matters(
    p: ParityView,
    a: Seq<(u16, Seq<u8>)>,
    b: Seq<(u16, Seq<u8>)>,
)
    requires
        forall|k: int|
            0 <= k < p.n ==> #[trigger] media::first_for(a, p.base_seq, k) == media::first_for(b, p.base_seq, k),
    ensures
        media::recovered(p, a) == media::recovered(p, b),
{
    let n = p.n as nat;
    assert(media::held(a, p.base_seq, n) =~= media::held(b, p.base_seq, n));
    assert forall|i: int| #[trigger]
        media::only_gap(a, p.base_seq, n, i) == media::only_gap(b, p.base_seq, n, i) by {
        if 0 <= i < n {
            assert(media::first_for(a, p.base_seq, i) == media::first_for(b, p.base_seq, i));
            if media::only_gap(a, p.base_seq, n, i) {
                assert forall|k: int| 0 <= k < n && k != i implies (#[trigger] media::first_for(
                    b,
                    p.base_seq,
                    k,
                )) is Some by {
                    assert(media::first_for(a, p.base_seq, k) is Some);
                }
            }
            if media::only_gap(b, p.base_seq, n, i) {
                assert forall|k: int| 0 <= k < n && k != i implies (#[trigger] media::first_for(
                    a,
                    p.base_seq,
                    k,
                )) is Some by {
                    assert(media::first_for(b, p.base_seq, k) is Some);
                }
            }
        }
    }
    if exists|i: int| media::only_gap(a, p.base_seq, n, i) {
        let i = choose|i: int| media::only_gap(a, p.base_seq, n, i);
        assert(media::only_gap(b, p.base_seq, n, i));
        media::lemma_one_gap(a, p.base_seq, n, i);
        media::lemma_one_gap(b, p.base_seq, n, i);
    } else if exists|i: int| media::only_gap(b, p.base_seq, n, i) {
        let i = choose|i: int| media::only_gap(b, p.base_seq, n, i);
        assert(media::only_gap(a, p.base_seq, n, i));
    }
    assert(media::missing_bytes(p, a) =~= media::missing_bytes(p, b));
}

/// A packet of another group changes nothing.
pub proof fn law_extras_are_ignored(
    p: ParityView,
    present: Seq<(u16, Seq<u8>)>,
    seq: u16,
    pkt: Seq<u8>,
)
    requires
        media::slot_of(p.base_seq, seq) >= p.n,
    ensures
        media::recovered(p, present.push((seq, pkt))) == media::recovered(p, present),
{
    let more = present.push((seq, pkt));
    assert(more.drop_last() =~= present);
    law_only_the_group_matters(p, more, present);
}

/// The encoder after a run of consecutive packets that starts at `seq`, and the payloads that
/// it emits on the way.
pub open spec fn pushed_run(e: EncoderView, seq: u16, pkts: Seq<Seq<u8>>) -> (
    EncoderView,
    Seq<Option<Seq<u8>>>,
)
    decreases pkts.len(),
{
    if pkts.len() == 0 {
        (e, Seq::empty())
    } else {
        let (before, outs) = pushed_run(e, seq, pkts.drop_last());
        let (after, out) = before.pushed(
            seq.wrapping_add((pkts.len() - 1) as u16),
            pkts.last(),
        );
        (after, outs.push(out))
    }
}

proof fn lemma_group_grows(e: EncoderView, seq: u16, pkts: Seq<Seq<u8>>)
    requires
        e.group_for(seq).len() == 0,
        pkts.len() < e.n,
        forall|k: int| 0 <= k < pkts.len() ==> media::groupable(#[trigger] pkts[k]),
    ensures
        pkts.len() > 0 ==> pushed_run(e, seq, pkts).0 == (EncoderView {
            n: e.n,
            size: e.n,
            group: pkts,
            base: seq,
            next: Some(seq.wrapping_add(pkts.len() as u16)),
        }),
        pushed_run(e, seq, pkts).1.len() == pkts.len(),
        forall|k: int|
            0 <= k < pkts.len() ==> (#[trigger] pushed_run(e, seq, pkts).1[k]) is None,
    decreases pkts.len(),
{
    if pkts.len() > 0 {
        let init = pkts.drop_last();
        lemma_group_grows(e, seq, init);
        let (before, outs) = pushed_run(e, seq, init);
        let last = seq.wrapping_add(init.len() as u16);
        assert(media::groupable(pkts.last()));
        assert(before.group_for(last) =~= init);
        assert(before.base_for(last) == seq);
        assert(before.size_for(last) == e.n);
        assert(init.push(pkts.last()) =~= pkts);
        assert(last.wrapping_add(1) == seq.wrapping_add(pkts.len() as u16));
        assert forall|k: int| 0 <= k < pkts.len() implies (#[trigger] pushed_run(
            e,
            seq,
            pkts,
        ).1[k]) is None by {
            if k < init.len() {
                assert(pushed_run(e, seq, init).1[k] is None);
            }
        }
    }
}

/// The host emits exactly one parity frame per `n` consecutive packets, with the last of
/// them, and it covers just those packets. This holds from any point at which a new group
/// starts: at first, after a full group, and after a gap in the sequence numbers.
pub proof fn law_one_parity_per_group(e: EncoderView, seq: u16, pkts: Seq<Seq<u8>>)
    requires
        e.n > 0,
        e.group_for(seq).len() == 0,
        pkts.len() == e.n,
        forall|k: int| 0 <= k < pkts.len() ==> media::groupable(#[trigger] pkts[k]),
    ensures
        pushed_run(e, seq, pkts).1.len() == e.n,
        forall|k: int|
            0 <= k < e.n - 1 ==> (#[trigger] pushed_run(e, seq, pkts).1[k]) is None,
        pushed_run(e, seq, pkts).1[e.n - 1] == Some(media::frame_bytes(media::TAG_FEC, media::parity_body(seq, pkts))),
        media::parity_covers(pkts),
        pushed_run(e, seq, pkts).0.group.len() == 0,
        pushed_run(e, seq, pkts).0.next == Some(seq.wrapping_add(e.n as u16)),
        pushed_run(e, seq, pkts).0.n == e.n,
{
    let init = pkts.drop_last();
    assert forall|k: int| 0 <= k < init.len() implies media::groupable(#[trigger] init[k]) by {
        assert(init[k] == pkts[k]);
    }
    lemma_group_grows(e, seq, init);
    let (before, outs) = pushed_run(e, seq, init);
    let last = seq.wrapping_add(init.len() as u16);
    assert(media::groupable(pkts.last()));
    assert(before.group_for(last) =~= init);
    assert(before.base_for(last) == seq);
    assert(before.size_for(last) == e.n);
    assert(init.push(pkts.last()) =~= pkts);
    assert(last.wrapping_add(1) == seq.wrapping_add(e.n as u16));
    media::lemma_longest(pkts);
    assert forall|k: int| 0 <= k < e.n - 1 implies (#[trigger] pushed_run(e, seq, pkts).1[k])
        is None by {
        assert(pushed_run(e, seq, init).1[k] is None);
    }
}

proof fn lemma_open_group_grows(e: EncoderView, pkts: Seq<Seq<u8>>)
    requires
        e.wf(),
        e.n > 0,
        e.group.len() > 0,
        e.group.len() + pkts.len() < e.size,
        forall|k: int| 0 <= k < pkts.len() ==> media::groupable(#[trigger] pkts[k]),
    ensures
        ({
            let (after, outs) = pushed_run(e, e.next->0, pkts);
            &&& after == (EncoderView {
                group: e.group + pkts,
                next: Some(e.next->0.wrapping_add(pkts.len() as u16)),
                ..e
            })
            &&& outs.len() == pkts.len()
            &&& forall|k: int| 0 <= k < pkts.len() ==> (#[trigger] outs[k]) is None
        }),
    decreases pkts.len(),
{
    let seq = e.next->0;
    if pkts.len() > 0 {
        let init = pkts.drop_last();
        lemma_open_group_grows(e, init);
        let (before, outs) = pushed_run(e, seq, init);
        let last = seq.wrapping_add(init.len() as u16);
        assert(media::groupable(pkts.last()));
        assert(before.group_for(last) == e.group + init);
        assert((e.group + init).push(pkts.last()) =~= e.group + pkts);
        assert(last.wrapping_add(1) == seq.wrapping_add(pkts.len() as u16));
        assert forall|k: int| 0 <= k < pkts.len() implies (#[trigger] pushed_run(
            e,
            seq,
            pkts,
        ).1[k]) is None by {
            if k < init.len() {
                assert(outs[k] is None);
            }
        }
    } else {
        assert(e.group + pkts =~= e.group);
    }
}

/// A new group size waits for the group boundary: an open group still ends with the size that it
/// was opened with, and is covered by one parity frame; the next group has the new size.
pub proof fn law_a_new_size_waits_for_the_boundary(e: EncoderView, n: u8, pkts: Seq<Seq<u8>>)
    requires
        e.wf(),
        e.n > 0,
        n > 0,
        e.group.len() > 0,
        e.group.len() + pkts.len() == e.size,
        forall|k: int| 0 <= k < pkts.len() ==> media::groupable(#[trigger] pkts[k]),
    ensures
        ({
            let (after, outs) = pushed_run(e.resized(n), e.next->0, pkts);
            let m = pkts.len() as int;
            &&& outs.len() == m
            &&& forall|k: int| 0 <= k < m - 1 ==> (#[trigger] outs[k]) is None
            &&& outs[m - 1] == Some(
                media::frame_bytes(media::TAG_FEC, media::parity_body(e.base, e.group + pkts)),
            )
            &&& after.n == n
            &&& after.group.len() == 0
            &&& forall|seq: u16| #[trigger] after.size_for(seq) == n
        }),
{
    let r = e.resized(n);
    let seq = e.next->0;
    let init = pkts.drop_last();
    assert forall|k: int| 0 <= k < init.len() implies media::groupable(#[trigger] init[k]) by {
        assert(init[k] == pkts[k]);
    }
    lemma_open_group_grows(r, init);
    let (before, outs) = pushed_run(r, seq, init);
    let last = seq.wrapping_add(init.len() as u16);
    assert(media::groupable(pkts[pkts.len() - 1]));
    assert(before.group_for(last) == e.group + init);
    assert((e.group + init).push(pkts.last()) =~= e.group + pkts);
    assert forall|k: int| 0 <= k < pkts.len() - 1 implies (#[trigger] pushed_run(r, seq, pkts).1[k])
        is None by {
        assert(outs[k] is None);
    }
}

/// From the host to the client: of any group that the host sends, the client that remembers
/// all packets but one gets that one back from the parity frame, exactly.
pub proof fn law_lost_packet_comes_back(
    e: EncoderView,
    seq: u16,
    pkts: Seq<Seq<u8>>,
    d: DecoderView,
    i: int,
)
    requires
        e.n > 0,
        e.group_for(seq).len() == 0,
        pkts.len() == e.n,
        forall|k: int| 0 <= k < pkts.len() ==> media::groupable(#[trigger] pkts[k]),
        lost_only(d.ring, seq, pkts, i),
    ensures
        ({
            let emitted = pushed_run(e, seq, pkts).1[e.n - 1];
            &&& emitted is Some
            &&& media::parsed_frame(emitted->0) matches Some((tag, body))
            &&& tag == media::TAG_FEC
            &&& d.repair(body) == Some((seq.wrapping_add(i as u16), pkts[i]))
            &&& d.after_parity(body) == (DecoderView { last_n: e.n, ..d }).remembering(
                seq.wrapping_add(i as u16),
                pkts[i],
            )
        }),
{
    law_one_parity_per_group(e, seq, pkts);
    law_parity_round_trip(seq, pkts);
    assert(media::groupable(pkts[i]));
    law_one_loss_is_repaired(seq, pkts, d.ring, i);
}

} // verus!

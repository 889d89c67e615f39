//! What the client gets back of a lost packet, told by the packets themselves.

use crate::service::media;
use crate::service::media::laws;
use crate::service::media::laws::wire;
use crate::service::media::{DecoderView, EncoderView, ParityView};
use vstd::prelude::*;

verus! {

// ── Repairing a group ─────────────────────────────────────────────────────────────────

/// How far a sequence number is after `base` (the 16-bit numbers wrap).
pub open spec fn ahead(base: u16, seq: u16) -> int {
    (seq - base) % 0x1_0000
}

/// Of the group of packets that starts at number `base`, exactly the one in place `i` is not at
/// hand. (What else is at hand, in which order and how often, is left open.)
pub open spec fn all_but(
    present: Seq<(u16, Seq<u8>)>,
    base: u16,
    pkts: Seq<Seq<u8>>,
    i: int,
) -> bool {
    &&& 0 <= i < pkts.len()
    &&& forall|j: int|
        0 <= j < present.len() && ahead(base, (#[trigger] present[j]).0) < pkts.len() ==> ahead(
            base,
            present[j].0,
        ) != i && present[j].1 == pkts[ahead(base, present[j].0)]
    &&& forall|k: int|
        0 <= k < pkts.len() && k != i ==> has_place(present, base, #[trigger] place(k))
}

/// Place `k` of a group.
pub open spec fn place(k: int) -> int {
    k
}

/// A packet in place `k` of the group that starts at `base` is at hand.
pub open spec fn has_place(present: Seq<(u16, Seq<u8>)>, base: u16, k: int) -> bool {
    exists|j: int| 0 <= j < present.len() && ahead(base, (#[trigger] present[j]).0) == k
}

proof fn lemma_first_for(present: Seq<(u16, Seq<u8>)>, base: u16, k: int)
    ensures
        media::first_for(present, base, k) is Some <==> has_place(present, base, k),
        media::first_for(present, base, k) matches Some(pkt) ==> exists|j: int|
            0 <= j < present.len() && ahead(base, (#[trigger] present[j]).0) == k && present[j].1
                == pkt,
    decreases present.len(),
{
    if present.len() > 0 {
        let before = present.drop_last();
        lemma_first_for(before, base, k);
        let n = present.len() - 1;
        assert(media::slot_of(base, present[n].0) == ahead(base, present[n].0));
        if has_place(before, base, k) {
            let j = choose|j: int|
                0 <= j < before.len() && ahead(base, (#[trigger] before[j]).0) == k
                    && before[j].1 == media::first_for(before, base, k)->0;
            assert(present[j] == before[j]);
        } else if has_place(present, base, k) {
            let j = choose|j: int|
                0 <= j < present.len() && ahead(base, (#[trigger] present[j]).0) == k;
            if j < n {
                assert(before[j] == present[j]);
            }
        }
    }
}

proof fn lemma_all_but(
    present: Seq<(u16, Seq<u8>)>,
    base: u16,
    pkts: Seq<Seq<u8>>,
    i: int,
)
    requires
        all_but(present, base, pkts, i),
        pkts.len() <= 255,
    ensures
        laws::lost_only(present, base, pkts, i),
{
    lemma_first_for(present, base, i);
    assert forall|k: int| 0 <= k < pkts.len() && k != i implies (#[trigger] media::first_for(
        present,
        base,
        k,
    )) == Some(pkts[k]) by {
        lemma_first_for(present, base, k);
        assert(has_place(present, base, place(k)));
    }
}

/// The one missing packet of a group comes back from its parity, exactly.
pub proof fn law_the_missing_packet_comes_back(
    base: u16,
    pkts: Seq<Seq<u8>>,
    present: Seq<(u16, Seq<u8>)>,
    i: int,
)
    requires
        1 <= pkts.len() <= 255,
        forall|k: int| 0 <= k < pkts.len() ==> (#[trigger] pkts[k]).len() <= 1500,
        all_but(present, base, pkts, i),
        pkts[i].len() >= 1,
    ensures
        ({
            let p = media::parsed_parity(media::parity_body(base, pkts));
            &&& p is Some
            &&& media::recovered(p->0, present) == Some((((base + i) % 0x1_0000) as u16, pkts[i]))
        }),
{
    wire::law_what_parity_covers(pkts);
    lemma_all_but(present, base, pkts, i);
    laws::law_parity_round_trip(base, pkts);
    laws::law_one_loss_is_repaired(base, pkts, present, i);
}

/// Nothing comes back when every packet of the group is at hand, nor when two are missing.
pub proof fn law_nothing_else_comes_back(p: ParityView, present: Seq<(u16, Seq<u8>)>, g: int, h: int)
    ensures
        (forall|k: int| 0 <= k < p.n ==> has_place(present, p.base_seq, #[trigger] place(k)))
            ==> media::recovered(p, present) is None,
        0 <= g < h < p.n && !has_place(present, p.base_seq, g) && !has_place(
            present,
            p.base_seq,
            h,
        ) ==> media::recovered(p, present) is None,
{
    if forall|k: int| 0 <= k < p.n ==> has_place(present, p.base_seq, #[trigger] place(k)) {
        assert forall|k: int| 0 <= k < p.n implies (#[trigger] media::first_for(
            present,
            p.base_seq,
            k,
        )) is Some by {
            lemma_first_for(present, p.base_seq, k);
            assert(has_place(present, p.base_seq, place(k)));
        }
        laws::law_complete_group_is_left_alone(p, present);
    }
    if 0 <= g < h < p.n && !has_place(present, p.base_seq, g) && !has_place(
        present,
        p.base_seq,
        h,
    ) {
        lemma_first_for(present, p.base_seq, g);
        lemma_first_for(present, p.base_seq, h);
        laws::law_two_losses_are_not_repaired(p, present, g, h);
    }
}

/// What comes back is a packet of the group that is not at hand, no longer than the parity and not
/// empty: a length that cannot be is no repair.
pub proof fn law_what_comes_back_can_be(p: ParityView, present: Seq<(u16, Seq<u8>)>)
    ensures
        media::recovered(p, present) matches Some((seq, pkt)) ==> {
            &&& ahead(p.base_seq, seq) < p.n
            &&& !has_place(present, p.base_seq, ahead(p.base_seq, seq))
            &&& 1 <= pkt.len() <= p.xor.len()
        },
{
    if media::recovered(p, present) is Some {
        let i = choose|i: int| media::only_gap(present, p.base_seq, p.n as nat, i);
        lemma_first_for(present, p.base_seq, i);
        assert(ahead(p.base_seq, p.base_seq.wrapping_add(i as u16)) == i);
    }
}

// ── What the client remembers ─────────────────────────────────────────────────────────

/// A decoder after a run of packets.
pub open spec fn after_packets(d: DecoderView, pkts: Seq<(u16, Seq<u8>)>) -> DecoderView
    decreases pkts.len(),
{
    if pkts.len() == 0 {
        d
    } else {
        after_packets(d, pkts.drop_last()).remembering(pkts.last().0, pkts.last().1)
    }
}

/// The last `n` of a sequence, or all of it.
pub open spec fn last_of<T>(s: Seq<T>, n: nat) -> Seq<T> {
    if s.len() <= n {
        s
    } else {
        s.skip(s.len() - n)
    }
}

/// The newest packet is always remembered, and over any run of packets what is remembered is the
/// last ones, as many as there is room for.
pub proof fn law_the_last_packets_are_remembered(d: DecoderView, pkts: Seq<(u16, Seq<u8>)>)
    requires
        d.wf(),
    ensures
        ({
            let after = after_packets(d, pkts);
            &&& after.wf()
            &&& after.ring == last_of(d.ring + pkts, d.cap)
            &&& pkts.len() > 0 ==> after.ring.last() == pkts.last()
            &&& after.cap == d.cap
            &&& after.last_n == d.last_n
        }),
    decreases pkts.len(),
{
    if pkts.len() > 0 {
        let before = pkts.drop_last();
        law_the_last_packets_are_remembered(d, before);
        let all = d.ring + pkts;
        assert(all.drop_last() =~= d.ring + before);
        assert(after_packets(d, pkts).ring =~= last_of(all, d.cap));
    } else {
        assert(d.ring + pkts =~= d.ring);
    }
}

/// A repaired packet is remembered as the newest one; the group size of a parity is known from
/// then on; a body that says nothing changes nothing.
pub proof fn law_what_a_parity_leaves(d: DecoderView, body: Seq<u8>)
    requires
        d.wf(),
    ensures
        ({
            let after = d.after_parity(body);
            let says = body.len() >= 6 && body[2] != 0;
            &&& !says ==> after == d && d.repair(body) is None
            &&& says ==> after.last_n == body[2] && after.cap == d.cap
            &&& says && d.repair(body) is None ==> after.ring == d.ring
            &&& d.repair(body) matches Some(pkt) ==> after.ring == last_of(
                d.ring.push(pkt),
                d.cap,
            )
        }),
{
    if let Some(pkt) = d.repair(body) {
        assert(d.after_parity(body).ring =~= last_of(d.ring.push(pkt), d.cap));
    }
}

// ── From the host to the client ───────────────────────────────────────────────────────

/// A packet that cannot be covered (empty, or over 1500 bytes), and any packet while parity is
/// off, goes by the encoder.
pub proof fn law_what_goes_by_the_encoder(e: EncoderView, seq: u16, rtp: Seq<u8>)
    requires
        e.n == 0 || rtp.len() == 0 || rtp.len() > 1500,
    ensures
        e.pushed(seq, rtp) == (e, None::<Seq<u8>>),
{
}

/// Switching parity off drops the open group at once; another size only counts from the next group
/// on.
pub proof fn law_what_a_new_size_touches(e: EncoderView, n: u8)
    ensures
        n > 0 ==> e.resized(n) == (EncoderView { n, ..e }),
        ({
            let off = e.resized(0);
            off.n == 0 && off.group.len() == 0 && off.next is None
        }),
{
}

/// The packets of a group but the one in place `i`, numbered from `seq` on.
pub open spec fn received(seq: u16, pkts: Seq<Seq<u8>>, i: int) -> Seq<(u16, Seq<u8>)> {
    Seq::new(
        (pkts.len() - 1) as nat,
        |k: int|
            if k < i {
                (((seq + k) % 0x1_0000) as u16, pkts[k])
            } else {
                (((seq + k + 1) % 0x1_0000) as u16, pkts[k + 1])
            },
    )
}

/// Of any group that the host sends from number `seq` on (1 to 1500 bytes a packet), the client
/// that gets all packets but one gets that one back from the parity that the host emits with the
/// last of them — however long the stream has run, as long as the client remembers that many
/// packets and none of the same numbers from a time before.
pub proof fn law_a_lost_packet_comes_back_at_any_time(
    e: EncoderView,
    seq: u16,
    pkts: Seq<Seq<u8>>,
    d: DecoderView,
    i: int,
)
    requires
        e.n > 0,
        e.group.len() == 0 || e.next != Some(seq),
        pkts.len() == e.n,
        forall|k: int| 0 <= k < pkts.len() ==> 1 <= (#[trigger] pkts[k]).len() <= 1500,
        0 <= i < pkts.len(),
        d.wf(),
        pkts.len() - 1 <= d.cap,
        forall|j: int| 0 <= j < d.ring.len() ==> ahead(seq, (#[trigger] d.ring[j]).0) >= pkts.len(),
    ensures
        ({
            let outs = laws::pushed_run(e, seq, pkts).1;
            let then = after_packets(d, received(seq, pkts, i));
            &&& outs.len() == pkts.len()
            &&& forall|k: int| 0 <= k < pkts.len() - 1 ==> (#[trigger] outs[k]) is None
            &&& outs[pkts.len() - 1] is Some
            &&& media::parsed_frame(outs[pkts.len() - 1]->0) matches Some((tag, body))
            &&& tag == 3
            &&& then.repair(body) == Some((((seq + i) % 0x1_0000) as u16, pkts[i]))
            &&& then.after_parity(body).last_n == e.n
        }),
{
    assert forall|k: int| 0 <= k < pkts.len() implies media::groupable(#[trigger] pkts[k]) by {}
    laws::law_one_parity_per_group(e, seq, pkts);
    laws::law_parity_round_trip(seq, pkts);
    lemma_received(seq, pkts, d, i);
    let then = after_packets(d, received(seq, pkts, i));
    lemma_all_but(then.ring, seq, pkts, i);
    assert(pkts[i].len() >= 1);
    laws::law_one_loss_is_repaired(seq, pkts, then.ring, i);
    let body = media::parity_body(seq, pkts);
    assert(then.repair(body) == Some((seq.wrapping_add(i as u16), pkts[i])));
    law_what_a_parity_leaves(then, body);
}

/// How far the packets that came are after the first of the group.
proof fn lemma_numbers(seq: u16, pkts: Seq<Seq<u8>>, i: int, k: int)
    requires
        0 <= i < pkts.len() <= 255,
        0 <= k < pkts.len() - 1,
    ensures
        ahead(seq, received(seq, pkts, i)[k].0) == (if k < i {
            k
        } else {
            k + 1
        }),
        received(seq, pkts, i)[k].1 == pkts[ahead(seq, received(seq, pkts, i)[k].0)],
{
}

/// What is remembered after the packets of a group but one is all but that one.
proof fn lemma_received(seq: u16, pkts: Seq<Seq<u8>>, d: DecoderView, i: int)
    requires
        0 <= i < pkts.len() <= 255,
        d.wf(),
        pkts.len() - 1 <= d.cap,
        forall|j: int| 0 <= j < d.ring.len() ==> ahead(seq, (#[trigger] d.ring[j]).0) >= pkts.len(),
    ensures
        all_but(after_packets(d, received(seq, pkts, i)).ring, seq, pkts, i),
        after_packets(d, received(seq, pkts, i)).wf(),
{
    let came = received(seq, pkts, i);
    law_the_last_packets_are_remembered(d, came);
    let ring = after_packets(d, came).ring;
    let n = came.len() as int;
    let all = d.ring + came;
    let gone = all.len() - ring.len();
    assert forall|j: int| 0 <= j < ring.len() implies #[trigger] ring[j] == all[j + gone] by {}
    assert forall|j: int|
        0 <= j < ring.len() && ahead(seq, (#[trigger] ring[j]).0) < pkts.len() implies ahead(
        seq,
        ring[j].0,
    ) != i && ring[j].1 == pkts[ahead(seq, ring[j].0)] by {
        if j + gone < d.ring.len() {
            assert(ring[j] == d.ring[j + gone]);
        } else {
            let k = j + gone - d.ring.len();
            assert(ring[j] == came[k]);
            lemma_numbers(seq, pkts, i, k);
        }
    }
    assert forall|k: int| 0 <= k < pkts.len() && k != i implies has_place(
        ring,
        seq,
        #[trigger] place(k),
    ) by {
        let c = if k < i {
            k
        } else {
            k - 1
        };
        let j = ring.len() - n + c;
        assert(ring[j] == came[c]);
        lemma_numbers(seq, pkts, i, c);
    }
}

} // verus!

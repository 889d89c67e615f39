use pulsar_core::service::media::{
    frame, parity_frame, parse, parse_parity, recover, rtp_seq, seq_forward, FecDecoder, FecEncoder,
    FEC_MAX_PACKET, TAG_FEC, TAG_VIDEO,
};

fn rtp(seq: u16, len: usize) -> Vec<u8> {
    let mut v = vec![0x80u8, 96, (seq >> 8) as u8, seq as u8];
    v.extend(
        (0..len.saturating_sub(4)).map(|i| (i as u8).wrapping_mul(31).wrapping_add(seq as u8)),
    );
    v
}

#[test]
fn frame_parse_roundtrip() {
    let rtp = [0x80u8, 96, 0x12, 0x34, 0, 0, 0, 0];
    let f = frame(TAG_VIDEO, &rtp);
    let (tag, body) = parse(&f).expect("parses");
    assert_eq!(tag, TAG_VIDEO);
    assert_eq!(body, &rtp);
}

#[test]
fn parse_rejects_control_and_junk() {
    assert!(parse(b"{\"Ping\":null}").is_none(), "JSON is not media");
    assert!(parse(&[]).is_none());
    assert!(parse(&[TAG_VIDEO]).is_none(), "empty RTP rejected");
    assert!(parse(&[0x07, 1, 2, 3]).is_none(), "unknown tag rejected");
}

#[test]
fn rtp_seq_and_wraparound() {
    let rtp = [0x80u8, 96, 0xFF, 0xFE, 0, 0, 0, 0];
    assert_eq!(rtp_seq(&rtp), Some(0xFFFE));
    assert_eq!(rtp_seq(&[1, 2, 3]), None);
    assert_eq!(seq_forward(0xFFFE, 0x0001), 3, "wraps forward");
    assert!(seq_forward(5, 2) >= 0x8000, "behind reads as huge forward");
}

#[test]
fn parity_frame_parses_as_media_and_rebuilds_the_missing_packet() {
    let pkts: Vec<Vec<u8>> =
        (0..8u16).map(|s| rtp(100 + s, 900 + (s as usize % 3) * 50)).collect();
    let refs: Vec<&[u8]> = pkts.iter().map(|v| v.as_slice()).collect();
    let frame = parity_frame(100, &refs).unwrap();
    let (tag, body) = parse(&frame).expect("parity is a media frame");
    assert_eq!(tag, TAG_FEC);
    let p = parse_parity(body).unwrap();
    assert_eq!((p.base_seq, p.n), (100, 8));
    assert_eq!(p.xor.len(), 1000);
    // Lose packet 103 (index 3): rebuild it from the other seven.
    let present: Vec<(u16, &[u8])> = pkts
        .iter()
        .enumerate()
        .filter(|(i, _)| *i != 3)
        .map(|(i, v)| (100 + i as u16, v.as_slice()))
        .collect();
    let (seq, rebuilt) = recover(&p, &present).expect("one missing → repairable");
    assert_eq!(seq, 103);
    assert_eq!(rebuilt, pkts[3]);
    // Two missing → not repairable; none missing → nothing to do.
    let present2: Vec<(u16, &[u8])> = pkts
        .iter()
        .enumerate()
        .filter(|(i, _)| *i != 3 && *i != 5)
        .map(|(i, v)| (100 + i as u16, v.as_slice()))
        .collect();
    assert!(recover(&p, &present2).is_none());
    let all: Vec<(u16, &[u8])> =
        pkts.iter().enumerate().map(|(i, v)| (100 + i as u16, v.as_slice())).collect();
    assert!(recover(&p, &all).is_none());
}

#[test]
fn encoder_emits_one_parity_per_group_and_restarts_on_gaps() {
    let mut e = FecEncoder::new(4);
    let mut parities = 0;
    for s in 0..12u16 {
        if e.push(s, &rtp(s, 500)).is_some() {
            parities += 1;
        }
    }
    assert_eq!(parities, 3);
    // A gap restarts the group: 20,21,22 then 30 → no parity until 30..33 complete.
    let mut e = FecEncoder::new(4);
    for s in [20u16, 21, 22] {
        assert!(e.push(s, &rtp(s, 500)).is_none());
    }
    for s in [30u16, 31, 32] {
        assert!(e.push(s, &rtp(s, 500)).is_none());
    }
    let f = e.push(33, &rtp(33, 500)).expect("group 30..33 complete");
    assert_eq!(parse_parity(parse(&f).unwrap().1).unwrap().base_seq, 30);
    // n = 0 → off; set_n live.
    e.set_n(0);
    assert!(e.push(34, &rtp(34, 500)).is_none());
}

#[test]
fn decoder_repairs_from_its_ring_across_wraparound() {
    let mut e = FecEncoder::new(5);
    let mut d = FecDecoder::new(64);
    let mut repaired = Vec::new();
    let start = 65533u16;
    for i in 0..10u16 {
        let seq = start.wrapping_add(i);
        let pkt = rtp(seq, 700);
        let parity = e.push(seq, &pkt);
        if seq != 1 {
            // Packet seq 1 (index 4 of the first group, across the wrap) is lost.
            d.on_packet(seq, &pkt);
        }
        if let Some(f) = parity {
            let (tag, body) = parse(&f).unwrap();
            assert_eq!(tag, TAG_FEC);
            if let Some((s, p)) = d.on_parity(body) {
                repaired.push((s, p));
            }
        }
    }
    assert_eq!(repaired.len(), 1);
    assert_eq!(repaired[0].0, 1);
    assert_eq!(repaired[0].1, rtp(1, 700));
    assert_eq!(d.last_n(), 5);
}

#[test]
fn junk_parity_is_rejected() {
    assert!(parse_parity(&[1, 2, 3]).is_none());
    assert!(parse_parity(&[0, 1, 0, 0, 0, 0]).is_none(), "n = 0");
    assert!(parity_frame(0, &[]).is_none());
    let big = vec![0u8; FEC_MAX_PACKET + 1];
    assert!(parity_frame(0, &[&big]).is_none());
}

#[test]
fn parity_layout_is_exact() {
    let f = parity_frame(0x1234, &[&[1u8, 2, 3], &[4u8, 5]]).unwrap();
    // Tag, base sequence, group size, XOR of the lengths, XOR of the padded packets.
    assert_eq!(f, vec![TAG_FEC, 0x12, 0x34, 2, 0, 1, 5, 7, 3]);
}

#[test]
fn any_single_loss_of_a_group_is_repaired() {
    let pkts: Vec<Vec<u8>> = (0..6u16).map(|s| rtp(65533u16.wrapping_add(s), 20 + s as usize)).collect();
    let refs: Vec<&[u8]> = pkts.iter().map(|v| v.as_slice()).collect();
    let f = parity_frame(65533, &refs).unwrap();
    let p = parse_parity(&f[1..]).unwrap();
    for lost in 0..6usize {
        let present: Vec<(u16, &[u8])> = (0..6usize)
            .filter(|i| *i != lost)
            .map(|i| (65533u16.wrapping_add(i as u16), pkts[i].as_slice()))
            .collect();
        let (seq, rebuilt) = recover(&p, &present).unwrap();
        assert_eq!(seq, 65533u16.wrapping_add(lost as u16));
        assert_eq!(rebuilt, pkts[lost]);
    }
}

#[test]
fn packets_outside_the_group_do_not_matter() {
    let pkts: Vec<Vec<u8>> = (0..3u16).map(|s| rtp(10 + s, 30)).collect();
    let refs: Vec<&[u8]> = pkts.iter().map(|v| v.as_slice()).collect();
    let f = parity_frame(10, &refs).unwrap();
    let p = parse_parity(&f[1..]).unwrap();
    let other = rtp(99, 30);
    let present: Vec<(u16, &[u8])> = vec![(99, &other), (10, &pkts[0]), (12, &pkts[2]), (9, &other)];
    assert_eq!(recover(&p, &present), Some((11, pkts[1].clone())));
}

#[test]
fn an_empty_packet_cannot_be_rebuilt() {
    let f = parity_frame(5, &[&[1u8, 2, 3], &[]]).unwrap();
    let p = parse_parity(&f[1..]).unwrap();
    assert!(recover(&p, &[(5, &[1u8, 2, 3])]).is_none());
}

#[test]
fn a_new_group_size_takes_effect_at_the_next_boundary() {
    let mut e = FecEncoder::new(4);
    assert_eq!(e.n(), 4);
    assert!(e.push(0, &[1]).is_none());
    assert!(e.push(1, &[2]).is_none());
    assert!(e.push(2, &[4]).is_none());
    e.set_n(2);
    assert_eq!(e.n(), 2);
    // The open group still ends with four packets.
    assert_eq!(e.push(3, &[8]), Some(vec![3, 0, 0, 4, 0, 0, 15]));
    assert_eq!(e.push(4, &[1]), None);
    assert_eq!(e.push(5, &[2]), Some(vec![3, 0, 4, 2, 0, 0, 3]));
    // A gap is a boundary too.
    let mut e = FecEncoder::new(4);
    assert!(e.push(0, &[1]).is_none());
    e.set_n(2);
    assert!(e.push(7, &[1]).is_none());
    assert_eq!(e.push(8, &[2]), Some(vec![3, 0, 7, 2, 0, 0, 3]));
}

#[test]
fn switching_parity_off_drops_the_group() {
    let mut e = FecEncoder::new(2);
    assert!(e.push(0, &[1]).is_none());
    e.set_n(0);
    assert!(e.push(1, &[2]).is_none());
    e.set_n(2);
    assert!(e.push(2, &[1]).is_none());
    assert_eq!(e.push(3, &[2]), Some(vec![3, 0, 2, 2, 0, 0, 3]));
    assert_eq!(FecEncoder::default().n(), 0);
}

#[test]
fn a_reset_decoder_has_nothing_to_repair_from() {
    let pkts: Vec<Vec<u8>> = (0..2u16).map(|s| rtp(s, 30)).collect();
    let refs: Vec<&[u8]> = pkts.iter().map(|v| v.as_slice()).collect();
    let f = parity_frame(0, &refs).unwrap();
    let mut d = FecDecoder::new(8);
    d.on_packet(0, &pkts[0]);
    d.reset();
    assert!(d.on_parity(&f[1..]).is_none());
    d.on_packet(0, &pkts[0]);
    assert_eq!(d.on_parity(&f[1..]), Some((1, pkts[1].clone())));
}

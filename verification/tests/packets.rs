use rekaserdoba_server::error::Error;
use rekaserdoba_server::fragment::FragmentReassembler;
use rekaserdoba_server::packet_batch::{
    batch_packets, batch_packets_with_ids, outbound_frames, outbound_packet,
    H3_DATAGRAM_FRAGMENT_SIZE,
};
use rekaserdoba_server::record::{parse_frames, RecordKind};

#[test]
fn packs_three_mtu_packets_into_one_record() {
    let packets = vec![vec![1; 1280], vec![2; 1280], vec![3; 1280]];
    let records = batch_packets(packets.clone(), 4080).unwrap();
    assert_eq!(records.len(), 1);
    let frames = parse_frames(&records[0], RecordKind::Data).unwrap();
    assert_eq!(frames.len(), 3);
    assert_eq!(frames[0].body, packets[0]);
    assert_eq!(frames[1].body, packets[1]);
    assert_eq!(frames[2].body, packets[2]);
}

#[test]
fn fragments_and_reassembles_jumbo_packet() {
    let packet = vec![7; 9000];
    let records = batch_packets(vec![packet.clone()], 4080).unwrap();
    let mut reassembler = FragmentReassembler::new();
    let mut restored = None;
    for record in records {
        for frame in parse_frames(&record, RecordKind::Data).unwrap() {
            restored = reassembler.push(&frame.body, 0).unwrap().or(restored);
        }
    }
    assert_eq!(restored, Some(packet));
}

#[test]
fn h3_datagram_frames_reassemble_full_mtu_packets() {
    let packet = (0..1280).map(|index| index as u8).collect::<Vec<_>>();
    let frames = outbound_frames(packet.clone(), true, 7).unwrap();
    assert_eq!(frames.len(), 2);
    assert!(frames.iter().all(|frame| {
        frame.frame_type == 0x03
            && frame.flags == 0
            && frame.body.len() <= H3_DATAGRAM_FRAGMENT_SIZE + 10
    }));
    let now = 0;
    let mut reassembler = FragmentReassembler::new();
    let mut restored = None;
    for frame in frames {
        if let Some(value) = reassembler.push(&frame.body, now).unwrap() {
            restored = Some(value);
        }
    }
    assert_eq!(restored, Some(packet));
}

#[test]
fn stream_carriers_get_one_frame() {
    let packet = vec![5; 1280];
    let frames = outbound_frames(packet.clone(), false, 7).unwrap();
    assert_eq!(frames.len(), 1);
    assert_eq!(frames[0].frame_type, 0x01);
    assert_eq!(frames[0].body, packet);
    let frames = outbound_frames(vec![5; 900], true, 7).unwrap();
    assert_eq!(frames.len(), 1);
    assert_eq!(frames[0].frame_type, 0x01);
}

#[test]
fn datagram_packets_differ_in_their_ids() {
    let first = outbound_packet(vec![5; 1280], true).unwrap();
    let second = outbound_packet(vec![5; 1280], true).unwrap();
    assert_eq!(first[0].body[..4], first[1].body[..4]);
    assert_ne!(first[0].body[..4], second[0].body[..4]);
}

#[test]
fn batching_uses_the_given_ids() {
    let records =
        batch_packets_with_ids(&vec![vec![7; 100], vec![8; 20]], 50, &vec![11, 12]).unwrap();
    let mut reassembler = FragmentReassembler::new();
    let mut packets = Vec::new();
    for record in &records {
        assert!(record.len() <= 50);
        for frame in parse_frames(record, RecordKind::Data).unwrap() {
            if frame.frame_type == 0x03 {
                assert_eq!(frame.body[..4], 11u32.to_be_bytes());
                if let Some(packet) = reassembler.push(&frame.body, 0).unwrap() {
                    packets.push(packet);
                }
            } else {
                packets.push(frame.body);
            }
        }
    }
    assert_eq!(packets, vec![vec![7; 100], vec![8; 20]]);
}

#[test]
fn tiny_capacity_is_refused() {
    assert_eq!(
        batch_packets(vec![vec![7; 100]], 13),
        Err(Error::RecordCapacityTooSmall)
    );
    assert_eq!(
        batch_packets(vec![vec![7; 65536]], 4080),
        Err(Error::PacketExceedsFragmentLimit)
    );
    assert_eq!(
        outbound_frames(vec![7; 65536], true, 1),
        Err(Error::NumberOutOfRange)
    );
}

#[test]
fn record_holds_at_most_eight_frames() {
    let packets = vec![vec![7; 20]; 9];
    let records = batch_packets(packets.clone(), 4080).unwrap();
    assert_eq!(records.len(), 2);
    assert_eq!(
        parse_frames(&records[0], RecordKind::Data).unwrap().len(),
        8
    );
    assert_eq!(
        parse_frames(&records[1], RecordKind::Data).unwrap().len(),
        1
    );
    assert_eq!(batch_packets(vec![vec![7; 20]; 8], 4080).unwrap().len(), 1);
}

#[test]
fn batch_brings_small_and_large_packets_in_order() {
    let packets: Vec<Vec<u8>> = vec![
        vec![],
        vec![1; 50],
        vec![2; 300],
        vec![3; 3],
        vec![4; 301],
        vec![],
    ];
    let records = batch_packets_with_ids(&packets, 64, &vec![5; 6]).unwrap();
    let mut reassembler = FragmentReassembler::new();
    let mut restored = Vec::new();
    for record in &records {
        let frames = parse_frames(record, RecordKind::Data).unwrap();
        assert!(record.len() <= 64 && frames.len() <= 8);
        for frame in frames {
            if frame.frame_type == 0x01 {
                restored.push(frame.body);
            } else if let Some(packet) = reassembler.push(&frame.body, 0).unwrap() {
                restored.push(packet);
            }
        }
    }
    assert_eq!(restored, packets);
}

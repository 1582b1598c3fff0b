use rekaserdoba_server::error::Error;
use rekaserdoba_server::fragment::{encode_fragment, FragmentReassembler};
use std::time::Duration;

fn nanos(value: Duration) -> u64 {
    value.as_nanos() as u64
}

fn body(packet_id: u32, total: u16, offset: u16, data: &[u8]) -> Vec<u8> {
    let mut output = Vec::new();
    output.extend_from_slice(&packet_id.to_be_bytes());
    output.extend_from_slice(&total.to_be_bytes());
    output.extend_from_slice(&offset.to_be_bytes());
    output.extend_from_slice(&(data.len() as u16).to_be_bytes());
    output.extend_from_slice(data);
    output
}

#[test]
fn reassembles_out_of_order() {
    let now = nanos(Duration::from_secs(1));
    let mut reassembler = FragmentReassembler::new();
    assert_eq!(reassembler.push(&body(1, 6, 3, b"def"), now).unwrap(), None);
    assert_eq!(
        reassembler.push(&body(1, 6, 0, b"abc"), now).unwrap(),
        Some(b"abcdef".to_vec())
    );
}

#[test]
fn ignores_identical_duplicate() {
    let now = nanos(Duration::from_secs(1));
    let mut reassembler = FragmentReassembler::new();
    assert_eq!(reassembler.push(&body(2, 6, 0, b"abc"), now).unwrap(), None);
    assert_eq!(reassembler.push(&body(2, 6, 0, b"abc"), now).unwrap(), None);
    assert_eq!(
        reassembler.push(&body(2, 6, 3, b"def"), now).unwrap(),
        Some(b"abcdef".to_vec())
    );
}

#[test]
fn destroys_overlapping_assembly() {
    let now = nanos(Duration::from_secs(1));
    let mut reassembler = FragmentReassembler::new();
    reassembler.push(&body(3, 8, 0, b"abcd"), now).unwrap();
    assert!(reassembler.push(&body(3, 8, 2, b"wxyz"), now).is_err());
    assert_eq!(
        reassembler.push(&body(3, 4, 0, b"done"), now).unwrap(),
        Some(b"done".to_vec())
    );
}

#[test]
fn expires_incomplete_assembly() {
    let now = nanos(Duration::from_secs(1));
    let mut reassembler = FragmentReassembler::new();
    reassembler.push(&body(4, 6, 0, b"abc"), now).unwrap();
    assert_eq!(
        reassembler
            .push(&body(4, 6, 3, b"def"), now + nanos(Duration::from_secs(4)))
            .unwrap(),
        None
    );
}

#[test]
fn reassembler_names_each_refusal() {
    let mut reassembler = FragmentReassembler::new();
    assert_eq!(reassembler.push(&[0; 9], 0), Err(Error::TruncatedFragment));
    assert_eq!(
        reassembler.push(&body(1, 0, 0, b"a"), 0),
        Err(Error::InvalidFragmentLength)
    );
    assert_eq!(
        reassembler.push(&body(1, 2, 1, b"ab"), 0),
        Err(Error::FragmentExceedsPacket)
    );
    assert_eq!(reassembler.push(&body(1, 6, 0, b"abc"), 0), Ok(None));
    assert_eq!(
        reassembler.push(&body(1, 7, 3, b"abc"), 0),
        Err(Error::FragmentTotalChanged)
    );
    assert_eq!(reassembler.push(&body(1, 6, 0, b"abc"), 0), Ok(None));
    assert_eq!(
        reassembler.push(&body(1, 6, 0, b"abd"), 0),
        Err(Error::ConflictingFragment)
    );
    assert_eq!(reassembler.push(&body(1, 6, 0, b"abc"), 0), Ok(None));
    assert_eq!(
        reassembler.push(&body(1, 6, 2, b"xy"), 0),
        Err(Error::OverlappingFragment)
    );
}

#[test]
fn reassembler_keeps_sixty_four_packets_at_once() {
    let mut reassembler = FragmentReassembler::new();
    for id in 0..64 {
        assert_eq!(reassembler.push(&body(id, 6, 0, b"abc"), 0), Ok(None));
    }
    assert_eq!(
        reassembler.push(&body(64, 6, 0, b"abc"), 0),
        Err(Error::FragmentReassemblyLimit)
    );
    assert_eq!(
        reassembler.push(&body(63, 6, 3, b"def"), 0),
        Ok(Some(b"abcdef".to_vec()))
    );
    assert_eq!(reassembler.push(&body(64, 6, 0, b"abc"), 0), Ok(None));
}

#[test]
fn fragment_is_encoded_with_its_header() {
    assert_eq!(encode_fragment(1, 6, 3, b"def"), body(1, 6, 3, b"def"));
}

#[test]
fn packets_are_restored_while_others_arrive() {
    let mut reassembler = FragmentReassembler::new();
    assert_eq!(reassembler.push(&body(1, 6, 3, b"def"), 0), Ok(None));
    assert_eq!(reassembler.push(&body(2, 4, 0, b"uv"), 1), Ok(None));
    assert_eq!(reassembler.push(&[0; 3], 1), Err(Error::TruncatedFragment));
    assert_eq!(
        reassembler.push(&body(2, 4, 2, b"wx"), 2),
        Ok(Some(b"uvwx".to_vec()))
    );
    assert_eq!(
        reassembler.push(&body(1, 6, 0, b"abc"), 3),
        Ok(Some(b"abcdef".to_vec()))
    );
    assert_eq!(
        reassembler.push(&body(1, 2, 0, b"yz"), 4),
        Ok(Some(b"yz".to_vec()))
    );
}

#[test]
fn lower_limit_is_kept() {
    let mut reassembler = FragmentReassembler::new();
    assert_eq!(reassembler.push_within(&body(1, 6, 3, b"def"), 0, 1), Ok(None));
    assert_eq!(
        reassembler.push_within(&body(2, 6, 3, b"def"), 0, 1),
        Err(Error::FragmentReassemblyLimit)
    );
    assert_eq!(reassembler.count(0), 1);
    assert_eq!(reassembler.count(3_000_000_000), 0);
}

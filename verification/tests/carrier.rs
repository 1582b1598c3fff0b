use bytes::BytesMut;
use rekaserdoba_server::carrier::{
    expect_binary, frame_message, h2_received, h3_received, is_application_data_record,
    stream_ended, take_carrier_message, take_local_message, take_stream_message, CarrierEvent,
    CarrierKind, Receive, MAX_CARRIER_MESSAGE,
};
use rekaserdoba_server::error::Error;

#[test]
fn local_frame_survives_partial_reads() {
    let mut buffered = vec![0, 0];
    assert!(take_local_message(&mut buffered).unwrap().is_none());
    buffered.extend_from_slice(&[0, 3, b'a']);
    assert!(take_local_message(&mut buffered).unwrap().is_none());
    buffered.extend_from_slice(b"bc");
    assert_eq!(
        take_local_message(&mut buffered).unwrap(),
        Some(b"abc".to_vec())
    );
    assert!(buffered.is_empty());
}

#[test]
fn carrier_framing_handles_fragmented_and_coalesced_messages() {
    let mut buffered = BytesMut::from(&[0, 0, 0, 3, 1, 2][..]);
    assert!(take_carrier_message(&mut buffered).unwrap().is_none());
    buffered.extend_from_slice(&[3, 0, 0, 0, 2, 4, 5]);
    assert_eq!(
        take_carrier_message(&mut buffered).unwrap(),
        Some(vec![1, 2, 3])
    );
    assert_eq!(
        take_carrier_message(&mut buffered).unwrap(),
        Some(vec![4, 5])
    );
    assert!(buffered.is_empty());
}

#[test]
fn carrier_framing_rejects_invalid_lengths() {
    assert!(take_carrier_message(&mut BytesMut::from(&[0, 0, 0, 0][..])).is_err());
    let mut oversized = BytesMut::from(&(MAX_CARRIER_MESSAGE as u32 + 1).to_be_bytes()[..]);
    assert!(take_carrier_message(&mut oversized).is_err());
}

#[test]
fn carrier_framing_survives_random_chunk_boundaries() {
    let messages = (0..128)
        .map(|index| vec![index as u8; index % 97 + 1])
        .collect::<Vec<_>>();
    let mut encoded = Vec::new();
    for message in &messages {
        encoded.extend_from_slice(&(message.len() as u32).to_be_bytes());
        encoded.extend_from_slice(message);
    }
    let mut state = 0x9e3779b97f4a7c15u64;
    let mut offset = 0;
    let mut buffered = BytesMut::new();
    let mut decoded = Vec::new();
    while offset < encoded.len() {
        state ^= state << 13;
        state ^= state >> 7;
        state ^= state << 17;
        let length = (state as usize % 31 + 1).min(encoded.len() - offset);
        buffered.extend_from_slice(&encoded[offset..offset + length]);
        offset += length;
        while let Some(message) = take_carrier_message(&mut buffered).unwrap() {
            decoded.push(message);
        }
    }
    assert_eq!(decoded, messages);
    assert!(buffered.is_empty());
}

#[test]
fn application_data_records_are_selected_for_datagrams() {
    let mut data = vec![0u8; 31];
    data[0] = 0x10;
    assert!(is_application_data_record(&data));
    data[0] = 0x18;
    assert!(!is_application_data_record(&data));
    assert!(!is_application_data_record(&data[..30]));
}

#[test]
fn framing_names_each_refusal() {
    let mut buffered = vec![0, 0, 0, 0];
    assert_eq!(take_local_message(&mut buffered), Err(Error::InvalidLocalLength));
    let mut buffered = vec![0, 0, 0x20, 1];
    assert_eq!(take_local_message(&mut buffered), Err(Error::InvalidLocalLength));
    assert_eq!(
        take_stream_message(&mut buffered),
        Err(Error::InvalidWebTransportLength)
    );
    let mut buffered = BytesMut::from(&[0, 0, 0, 0][..]);
    assert_eq!(
        take_carrier_message(&mut buffered),
        Err(Error::InvalidCarrierLength)
    );
}

#[test]
fn framed_message_is_taken_back() {
    let framed = frame_message(b"hello").unwrap();
    assert_eq!(framed, b"\x00\x00\x00\x05hello");
    let mut buffered = framed.clone();
    buffered.push(9);
    assert_eq!(take_stream_message(&mut buffered), Ok(Some(b"hello".to_vec())));
    assert_eq!(buffered, vec![9]);
}

#[test]
fn h2_stream_is_bounded_and_must_end_properly() {
    let mut buffered = BytesMut::new();
    assert!(matches!(
        h2_received(&mut buffered, None),
        Ok(Some(CarrierEvent::Close))
    ));
    assert!(matches!(
        h2_received(&mut buffered, Some(&[0, 0])),
        Ok(None)
    ));
    assert!(matches!(
        h2_received(&mut buffered, None),
        Err(Error::TruncatedH2Message)
    ));
    let mut buffered = BytesMut::new();
    assert!(matches!(
        h2_received(&mut buffered, Some(&vec![0; 1_048_576])),
        Ok(None)
    ));
    assert!(matches!(
        h2_received(&mut buffered, Some(&[0])),
        Err(Error::H2BufferExceeded)
    ));
    assert_eq!(buffered.len(), 1_048_577);
}

#[test]
fn h3_session_delivers_bytes_and_datagrams() {
    let mut buffered = BytesMut::new();
    let chunk = [0, 0, 0, 1, 9, 77];
    assert!(matches!(
        h3_received(&mut buffered, &chunk, Receive::Reliable(None)),
        Ok(Some(CarrierEvent::Close))
    ));
    assert!(matches!(
        h3_received(&mut buffered, &chunk, Receive::Reliable(Some(5))),
        Ok(None)
    ));
    assert_eq!(buffered[..], [0, 0, 0, 1, 9]);
    assert!(matches!(
        h3_received(&mut buffered, &chunk, Receive::Reliable(None)),
        Err(Error::TruncatedH3Message)
    ));
    assert_eq!(take_carrier_message(&mut buffered), Ok(Some(vec![9])));
    assert!(matches!(
        h3_received(&mut buffered, &chunk, Receive::Datagram(vec![5; 4368])),
        Ok(Some(CarrierEvent::Binary(payload))) if payload == vec![5; 4368]
    ));
    assert!(matches!(
        h3_received(&mut buffered, &chunk, Receive::Datagram(vec![5; 4369])),
        Err(Error::H3DatagramTooLarge)
    ));
    let mut buffered = BytesMut::from(&vec![0; 1_048_576][..]);
    assert!(matches!(
        h3_received(&mut buffered, &chunk, Receive::Reliable(Some(1))),
        Err(Error::H3BufferExceeded)
    ));
    assert_eq!(buffered.len(), 1_048_577);
}

#[test]
fn other_events_are_told_apart() {
    assert_eq!(
        expect_binary(CarrierEvent::Binary(vec![1])),
        Ok(vec![1])
    );
    assert_eq!(expect_binary(CarrierEvent::Close), Err(Error::CarrierClosed));
    assert_eq!(
        expect_binary(CarrierEvent::Ignore),
        Err(Error::ExpectedBinaryMessage)
    );
    assert_eq!(
        expect_binary(CarrierEvent::Ping(vec![])),
        Err(Error::ExpectedBinaryMessage)
    );
    assert_eq!(stream_ended(&vec![], Error::TruncatedLocalMessage), Ok(()));
    assert_eq!(
        stream_ended(&vec![1], Error::TruncatedLocalMessage),
        Err(Error::TruncatedLocalMessage)
    );
    assert_eq!(CarrierKind::Wss.name(), "wss");
    assert_eq!(CarrierKind::H2.name(), "h2");
    assert_eq!(CarrierKind::H3.name(), "h3");
}

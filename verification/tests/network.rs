use rekaserdoba_server::config::TunSettings;
use rekaserdoba_server::error::Error;
use rekaserdoba_server::ipv4::{ipv4_checksum, ipv4_destination, parse_ipv4, prefix_mask};
use rekaserdoba_server::network::{
    helper_acknowledgement, helper_registration, helper_wrote, retry_helper, Arrival, Helper,
    HelperAction, Network, ReceivePause, SendStep, Sent,
};

#[test]
fn extracts_valid_ipv4_destination() {
    let mut packet = vec![0u8; 20];
    packet[0] = 0x45;
    packet[2..4].copy_from_slice(&20u16.to_be_bytes());
    packet[16..20].copy_from_slice(&[10, 77, 0, 2]);
    assert_eq!(ipv4_destination(&packet), Some([10, 77, 0, 2]));
}

#[test]
fn rejects_malformed_ipv4_packet() {
    let mut packet = vec![0u8; 20];
    packet[0] = 0x45;
    packet[2..4].copy_from_slice(&21u16.to_be_bytes());
    assert_eq!(ipv4_destination(&packet), None);
}

fn settings(helper: bool) -> TunSettings {
    TunSettings {
        name: "reka0".to_owned(),
        address: "10.77.0.1".to_owned(),
        prefix_len: 24,
        mtu: 1280,
        session_queue: 64,
        helper_socket: helper.then_some("/run/helper.sock".to_owned()),
        helper_client_socket: helper.then_some("/run/edge.sock".to_owned()),
    }
}

fn packet(source: [u8; 4], destination: [u8; 4]) -> Vec<u8> {
    let mut packet = vec![0u8; 20];
    packet[0] = 0x45;
    packet[3] = 20;
    packet[12..16].copy_from_slice(&source);
    packet[16..20].copy_from_slice(&destination);
    packet
}

#[test]
fn packets_are_routed_by_address() {
    let mut network = Network::create(&settings(false)).unwrap();
    assert!(network.is_ready());
    assert_eq!(network.session_queue(), 64);
    let to_client = packet([10, 77, 0, 1], [10, 77, 0, 2]);
    assert!(matches!(
        network.packet_arrived(&to_client),
        Arrival::Unrouted
    ));
    let lease = network.register([10, 77, 0, 2]).unwrap();
    assert_eq!(
        network.register([10, 77, 0, 2]).err(),
        Some(Error::ClientAlreadyActive)
    );
    let id = lease.id();
    assert!(matches!(
        network.packet_arrived(&to_client),
        Arrival::Route(found) if found == id
    ));
    network.packet_delivered(true);
    network.packet_delivered(false);
    assert!(matches!(
        network.packet_arrived(b"RSA1"),
        Arrival::Invalid
    ));
    network.release(lease);
    let next = network.register([10, 77, 0, 2]).unwrap();
    assert_ne!(next.id(), id);
    assert_eq!(network.received_packets(), 3);
    assert_eq!(network.routed_packets(), 1);
    assert_eq!(network.dropped_packets(), 1);
    assert_eq!(network.unrouted_packets(), 1);
    assert_eq!(network.invalid_packets(), 1);
}

#[test]
fn helper_is_ready_once_it_acknowledges() {
    let mut network = Network::create(&settings(true)).unwrap();
    let mut helper = Helper::new("reka0", [10, 77, 0, 1], 24, 1280).unwrap();
    assert!(!network.is_ready());
    network.registration_due();
    assert!(!network.registration_sent(Sent::Written(4)));
    assert!(!helper.passes_on());
    assert_eq!(
        helper.edge_message(true, helper_registration()),
        HelperAction::Acknowledge
    );
    assert!(helper.passes_on());
    assert!(matches!(
        network.packet_arrived(helper_acknowledgement()),
        Arrival::Acknowledged
    ));
    assert!(network.is_ready());
    network.registration_due();
    assert!(network.is_ready());
    network.registration_due();
    assert!(!network.is_ready());
    assert!(network.registration_sent(Sent::Failed));
    assert!(!network.registration_sent(Sent::Written(3)));
    assert_eq!(
        network.receive_failed(),
        ReceivePause {
            warn: true,
            milliseconds: 250
        }
    );
    assert_eq!(
        network.receive_failed(),
        ReceivePause {
            warn: false,
            milliseconds: 250
        }
    );
    assert_eq!(helper_registration(), b"RSN1");
    assert_eq!(helper_acknowledgement(), b"RSA1");
}

#[test]
fn helper_writes_only_packets_of_its_subnet() {
    let mut helper = Helper::new("reka0", [10, 77, 0, 1], 24, 1280).unwrap();
    let inside = packet([10, 77, 0, 2], [192, 0, 2, 1]);
    let outside = packet([10, 78, 0, 2], [192, 0, 2, 1]);
    assert_eq!(helper.edge_message(true, &inside), HelperAction::Ignore);
    assert_eq!(
        helper.edge_message(false, b"RSN1"),
        HelperAction::Ignore
    );
    helper.edge_message(true, b"RSN1");
    assert_eq!(helper.edge_message(true, &inside), HelperAction::Write);
    assert_eq!(helper.edge_message(true, &outside), HelperAction::Ignore);
    assert_eq!(helper.edge_message(false, &inside), HelperAction::Ignore);
    assert_eq!(
        Helper::new("", [10, 77, 0, 1], 24, 1280).err(),
        Some(Error::InvalidHelperConfiguration)
    );
    assert!(Helper::new("a", [10, 77, 0, 1], 32, 9000).is_ok());
    assert!(Helper::new("a", [10, 77, 0, 1], 33, 1280).is_err());
    assert_eq!(helper_wrote(19, 20), Err(Error::PartialHelperWrite));
    assert_eq!(helper_wrote(20, 20), Ok(()));
}

#[test]
fn lost_helper_is_reconnected_once() {
    let mut network = Network::create(&settings(true)).unwrap();
    network.packet_arrived(b"RSA1");
    assert_eq!(network.packet_sent(Sent::Written(20), 20, false), SendStep::Done);
    assert_eq!(
        network.packet_sent(Sent::Written(19), 20, false),
        SendStep::Fail(Error::PartialPacketWrite)
    );
    assert!(network.is_ready());
    assert_eq!(
        network.packet_sent(Sent::Unreachable, 20, false),
        SendStep::Reconnect
    );
    assert!(!network.is_ready());
    assert_eq!(
        network.packet_sent(Sent::Unreachable, 20, true),
        SendStep::Fail(Error::NetworkSendFailed)
    );
    assert!(retry_helper(true, 9_999));
    assert!(!retry_helper(true, 10_000));
    assert!(!retry_helper(false, 0));
    let mut network = Network::create(&settings(false)).unwrap();
    assert_eq!(
        network.packet_sent(Sent::Unreachable, 20, false),
        SendStep::Fail(Error::NetworkSendFailed)
    );
}

#[test]
fn checksum_of_a_known_header() {
    let header = [
        0x45, 0x00, 0x00, 0x73, 0x00, 0x00, 0x40, 0x00, 0x40, 0x11, 0x00, 0x00, 0xc0, 0xa8, 0x00,
        0x01, 0xc0, 0xa8, 0x00, 0xc7,
    ];
    assert_eq!(ipv4_checksum(&header), 0xb861);
}

#[test]
fn addresses_are_read_in_dotted_decimal() {
    assert_eq!(parse_ipv4(b"10.77.0.255"), Some([10, 77, 0, 255]));
    for text in ["10.77.0", "10.77.0.256", "10.77.0.01", "10.77.0.1 ", "10..0.1", ""] {
        assert_eq!(parse_ipv4(text.as_bytes()), None, "{text}");
    }
    assert_eq!(prefix_mask(24), 0xffff_ff00);
    assert_eq!(prefix_mask(0), 0);
    assert_eq!(prefix_mask(32), 0xffff_ffff);
}

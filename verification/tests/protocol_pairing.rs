use halo::protocol::pairing::{
    Capabilities, ClientHello, PairingCommit, PairingDecision, PairingMessage, ProtocolError,
    ProtocolRange, ServerHello, IDENTITY_KEY_LEN, MAX_FRAME_LEN, NONCE_LEN, SIGNATURE_LEN,
    TRANSCRIPT_HASH_LEN,
};

const MAGIC: &[u8; 4] = b"HALO";
const CLIENT_HELLO_KIND: u8 = 1;

fn client() -> ClientHello {
    ClientHello {
        versions: ProtocolRange::new(1, 3)
            .unwrap_or_else(|error| panic!("test version range: {error:?}")),
        capabilities: Capabilities::from_bits(0x0102_0304_0506_0708),
        nonce: [0x11; NONCE_LEN],
        identity_key: [0x22; IDENTITY_KEY_LEN],
        signature: [0x33; SIGNATURE_LEN],
    }
}

#[test]
fn client_hello_golden_vector_is_stable() {
    let message = PairingMessage::ClientHello(client());
    let encoded = message.encode();
    assert_eq!(&encoded[..12], b"HALO\x00\x01\x01\x00\x00\x00\x00\xad");
    assert_eq!(&encoded[12..16], &[0, 1, 0, 3]);
    assert_eq!(&encoded[16..24], &[1, 2, 3, 4, 5, 6, 7, 8]);
    assert_eq!(PairingMessage::decode(&encoded), Ok(message));
}

#[test]
fn all_message_types_round_trip() {
    let messages = [
        PairingMessage::ClientHello(client()),
        PairingMessage::ServerHello(ServerHello {
            selected_version: 2,
            versions: ProtocolRange::new(2, 4)
                .unwrap_or_else(|error| panic!("test version range: {error:?}")),
            capabilities: Capabilities::from_bits(7),
            nonce: [4; NONCE_LEN],
            identity_key: [5; IDENTITY_KEY_LEN],
            client_hello_hash: [6; TRANSCRIPT_HASH_LEN],
            signature: [7; SIGNATURE_LEN],
        }),
        PairingMessage::Decision(PairingDecision {
            transcript_hash: [8; TRANSCRIPT_HASH_LEN],
            accepted: true,
            signature: [9; SIGNATURE_LEN],
        }),
        PairingMessage::Commit(PairingCommit {
            transcript_hash: [10; TRANSCRIPT_HASH_LEN],
            signature: [11; SIGNATURE_LEN],
        }),
    ];
    for message in messages {
        let encoded = message.encode();
        assert_eq!(PairingMessage::decode(&encoded), Ok(message));
    }
}

#[test]
fn rejects_every_truncation_without_panicking() {
    let encoded = PairingMessage::ClientHello(client()).encode();
    for length in 0..encoded.len() {
        assert!(PairingMessage::decode(&encoded[..length]).is_err());
    }
}

#[test]
fn rejects_oversized_unknown_reserved_and_malformed_frames() {
    let mut oversized = vec![0_u8; MAX_FRAME_LEN + 1];
    oversized[..4].copy_from_slice(MAGIC);
    assert_eq!(
        PairingMessage::decode(&oversized),
        Err(ProtocolError::FrameTooLarge(MAX_FRAME_LEN + 1))
    );

    let mut frame = PairingMessage::ClientHello(client()).encode();
    frame[6] = 99;
    assert_eq!(
        PairingMessage::decode(&frame),
        Err(ProtocolError::UnknownMessageKind(99))
    );
    frame[6] = CLIENT_HELLO_KIND;
    frame[7] = 1;
    assert_eq!(
        PairingMessage::decode(&frame),
        Err(ProtocolError::ReservedFlags(1))
    );
}

#[test]
fn negotiates_highest_shared_version_and_rejects_disjoint_ranges() {
    let local =
        ProtocolRange::new(1, 4).unwrap_or_else(|error| panic!("test version range: {error:?}"));
    let remote =
        ProtocolRange::new(2, 3).unwrap_or_else(|error| panic!("test version range: {error:?}"));
    assert_eq!(local.negotiate(remote), Some(3));
    let disjoint =
        ProtocolRange::new(5, 6).unwrap_or_else(|error| panic!("test version range: {error:?}"));
    assert_eq!(local.negotiate(disjoint), None);
}

#[test]
fn protocol_range_rejects_zero_and_inverted_bounds() {
    assert_eq!(
        ProtocolRange::new(0, 3),
        Err(ProtocolError::InvalidVersionRange { min: 0, max: 3 })
    );
    assert_eq!(
        ProtocolRange::new(4, 3),
        Err(ProtocolError::InvalidVersionRange { min: 4, max: 3 })
    );
    let range = ProtocolRange::new(2, 5).unwrap_or_else(|error| panic!("{error:?}"));
    assert!(range.contains(2) && range.contains(5) && !range.contains(6) && !range.contains(1));
    assert_eq!((range.min(), range.max()), (2, 5));
}

#[test]
fn decision_rejects_non_boolean_accept_byte() {
    let mut frame = PairingMessage::Decision(PairingDecision {
        transcript_hash: [8; TRANSCRIPT_HASH_LEN],
        accepted: false,
        signature: [9; SIGNATURE_LEN],
    })
    .encode();
    frame[12 + 32] = 2;
    assert_eq!(
        PairingMessage::decode(&frame),
        Err(ProtocolError::InvalidBoolean(2))
    );
}

#[test]
fn server_hello_with_zero_selected_version_is_rejected() {
    let frame = PairingMessage::ServerHello(ServerHello {
        selected_version: 0,
        versions: ProtocolRange::new(1, 1).unwrap_or_else(|error| panic!("{error:?}")),
        capabilities: Capabilities::default(),
        nonce: [0; NONCE_LEN],
        identity_key: [0; IDENTITY_KEY_LEN],
        client_hello_hash: [0; TRANSCRIPT_HASH_LEN],
        signature: [0; SIGNATURE_LEN],
    })
    .encode();
    assert_eq!(
        PairingMessage::decode(&frame),
        Err(ProtocolError::InvalidSelectedVersion)
    );
}

#[test]
fn capability_intersection_keeps_shared_bits() {
    let local = Capabilities::from_bits(0b111);
    let remote = Capabilities::from_bits(0b110);
    assert_eq!(local.intersection(remote).bits(), 0b110);
}

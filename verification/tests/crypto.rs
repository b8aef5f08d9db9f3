use halo::crypto::identity::{
    DeviceIdentity, IdentityError, IdentityPublicKey, SecretIdentityBlob, BLOB_LEN,
};
use halo::crypto::pairing::{
    client_hello_from_nonce, code_from_key_material, create_client_hello, server_hello_from_nonce, create_commit, create_decision,
    create_server_hello, pairing_code, transcript_hash, verify_client_hello, verify_commit,
    verify_decision, verify_server_hello, PairingCryptoError, TlsChannelBinding,
};
use halo::crypto::store::{
    decode_peer_record, decode_remembered_endpoint, derive_peer_id, encode_peer_record,
    encode_remembered_endpoint, endpoint_file_stem, FileTrustStore, RecordKind,
    RememberedEndpoint, StoreError, TrustedPeer,
};
use halo::net::IpAddr;
use halo::protocol::pairing::{
    Capabilities, PairingMessage, ProtocolRange, IDENTITY_KEY_LEN, TRANSCRIPT_HASH_LEN,
};

fn range(min: u16, max: u16) -> ProtocolRange {
    ProtocolRange::new(min, max).unwrap_or_else(|error| panic!("test version range: {error:?}"))
}

#[test]
fn identity_blob_round_trips_and_signatures_verify() {
    let first =
        DeviceIdentity::generate().unwrap_or_else(|error| panic!("generate identity: {error:?}"));
    let blob = first.to_blob();
    let restored = DeviceIdentity::from_blob(&blob)
        .unwrap_or_else(|error| panic!("restore identity: {error:?}"));
    assert_eq!(first.public_key(), restored.public_key());

    let signature = restored
        .sign(b"bound handshake")
        .unwrap_or_else(|error| panic!("sign: {error:?}"));
    restored
        .public_key()
        .verify(b"bound handshake", &signature)
        .unwrap_or_else(|error| panic!("verify signature: {error:?}"));
    assert_eq!(
        restored.public_key().verify(b"tampered", &signature),
        Err(IdentityError::SignatureVerification)
    );
}

#[test]
fn rejects_malformed_identity_material() {
    let blob = SecretIdentityBlob::new(vec![0; BLOB_LEN])
        .unwrap_or_else(|error| panic!("test blob: {error:?}"));
    assert!(DeviceIdentity::from_blob(&blob).is_err());
    assert_eq!(
        IdentityPublicKey::from_bytes([0; IDENTITY_KEY_LEN]),
        Err(IdentityError::InvalidPublicKey)
    );
}

#[test]
fn identity_blobs_are_bounded_and_checked_in_order() {
    assert_eq!(
        SecretIdentityBlob::new(vec![0; 257]).err(),
        Some(IdentityError::InvalidBlobLength(257))
    );
    let short = SecretIdentityBlob::new(vec![0; 5]).unwrap_or_else(|e| panic!("{e:?}"));
    assert_eq!(
        DeviceIdentity::from_blob(&short).err(),
        Some(IdentityError::InvalidBlobLength(5))
    );
    let identity = DeviceIdentity::generate().unwrap_or_else(|e| panic!("{e:?}"));
    let mut bytes = identity.to_blob().as_bytes().to_vec();
    assert_eq!(&bytes[..6], b"HKEY\x00\x01");
    bytes[5] = 2;
    let wrong_version = SecretIdentityBlob::new(bytes).unwrap_or_else(|e| panic!("{e:?}"));
    assert_eq!(
        DeviceIdentity::from_blob(&wrong_version).err(),
        Some(IdentityError::UnsupportedBlobVersion(2))
    );
    let key = identity.public_key();
    assert_eq!(key.as_bytes()[0], 4);
    assert_eq!(IdentityPublicKey::from_bytes(*key.as_bytes()), Ok(key));
}

#[test]
fn complete_pairing_authenticates_and_derives_the_same_code() {
    let client_identity =
        DeviceIdentity::generate().unwrap_or_else(|error| panic!("generate client: {error:?}"));
    let server_identity =
        DeviceIdentity::generate().unwrap_or_else(|error| panic!("generate server: {error:?}"));
    let binding = TlsChannelBinding::new([0x42; 32]);
    let client = create_client_hello(
        &client_identity,
        range(1, 3),
        Capabilities::from_bits(0b111),
        binding,
    )
    .unwrap_or_else(|error| panic!("client hello: {error:?}"));
    let client_frame = PairingMessage::ClientHello(client.clone()).encode();
    let server = create_server_hello(
        &server_identity,
        range(2, 4),
        Capabilities::from_bits(0b110),
        &client_frame,
        &client,
        binding,
    )
    .unwrap_or_else(|error| panic!("server hello: {error:?}"));
    let server_frame = PairingMessage::ServerHello(server.clone()).encode();
    let server_key = verify_server_hello(&client_frame, &client, &server, binding)
        .unwrap_or_else(|error| panic!("verify server: {error:?}"));
    assert_eq!(server.selected_version, 3);
    assert_eq!(
        client.capabilities.intersection(server.capabilities).bits(),
        0b110
    );

    let transcript = transcript_hash(binding, &client_frame, &server_frame);
    let code = pairing_code(&transcript).unwrap_or_else(|error| panic!("derive code: {error:?}"));
    assert_eq!(code.digits().len(), 6);
    let decision = create_decision(&server_identity, transcript, true, binding)
        .unwrap_or_else(|error| panic!("decision: {error:?}"));
    verify_decision(&server_key, &decision, &transcript, binding)
        .unwrap_or_else(|error| panic!("verify decision: {error:?}"));
    let client_key = verify_client_hello(&client, binding)
        .unwrap_or_else(|error| panic!("verify client: {error:?}"));
    let commit = create_commit(&client_identity, transcript, binding)
        .unwrap_or_else(|error| panic!("commit: {error:?}"));
    verify_commit(&client_key, &commit, &transcript, binding)
        .unwrap_or_else(|error| panic!("verify commit: {error:?}"));
}

#[test]
fn rejects_tampering_replay_downgrade_and_code_mismatch_inputs() {
    let client_identity =
        DeviceIdentity::generate().unwrap_or_else(|error| panic!("generate client: {error:?}"));
    let server_identity =
        DeviceIdentity::generate().unwrap_or_else(|error| panic!("generate server: {error:?}"));
    let binding = TlsChannelBinding::new([1; 32]);
    let other_binding = TlsChannelBinding::new([2; 32]);
    let client = create_client_hello(
        &client_identity,
        range(1, 2),
        Capabilities::default(),
        binding,
    )
    .unwrap_or_else(|error| panic!("client hello: {error:?}"));
    assert!(verify_client_hello(&client, other_binding).is_err());
    let mut tampered = client.clone();
    tampered.capabilities = Capabilities::from_bits(1);
    assert!(verify_client_hello(&tampered, binding).is_err());
    let mut forged_identity = client.clone();
    forged_identity.identity_key = *server_identity.public_key().as_bytes();
    assert!(verify_client_hello(&forged_identity, binding).is_err());

    let client_frame = PairingMessage::ClientHello(client.clone()).encode();
    assert_eq!(
        create_server_hello(
            &server_identity,
            range(3, 4),
            Capabilities::default(),
            &client_frame,
            &client,
            binding,
        ),
        Err(PairingCryptoError::IncompatibleVersion)
    );
    let mut server = create_server_hello(
        &server_identity,
        range(1, 2),
        Capabilities::default(),
        &client_frame,
        &client,
        binding,
    )
    .unwrap_or_else(|error| panic!("server hello: {error:?}"));
    server.selected_version = 1;
    assert_eq!(
        verify_server_hello(&client_frame, &client, &server, binding),
        Err(PairingCryptoError::VersionDowngrade)
    );

    let transcript = [7; 32];
    let decision = create_decision(&server_identity, transcript, true, binding)
        .unwrap_or_else(|error| panic!("decision: {error:?}"));
    assert_eq!(
        verify_decision(&server_identity.public_key(), &decision, &[8; 32], binding),
        Err(PairingCryptoError::TranscriptMismatch)
    );
}

#[test]
fn rejected_decision_is_reported_after_its_signature_checks() {
    let identity = DeviceIdentity::generate().unwrap_or_else(|e| panic!("{e:?}"));
    let binding = TlsChannelBinding::new([3; 32]);
    let transcript = [9; 32];
    let decision = create_decision(&identity, transcript, false, binding)
        .unwrap_or_else(|e| panic!("{e:?}"));
    assert_eq!(
        verify_decision(&identity.public_key(), &decision, &transcript, binding),
        Err(PairingCryptoError::Rejected)
    );
    let commit = create_commit(&identity, transcript, binding).unwrap_or_else(|e| panic!("{e:?}"));
    assert_eq!(
        verify_commit(&identity.public_key(), &commit, &[1; 32], binding),
        Err(PairingCryptoError::TranscriptMismatch)
    );
}

#[test]
fn tls_binding_changes_the_authenticated_transcript() {
    let first = transcript_hash(TlsChannelBinding::new([1; 32]), b"a", b"b");
    let second = transcript_hash(TlsChannelBinding::new([2; 32]), b"a", b"b");
    assert_ne!(first, second);
    assert_eq!(pairing_code(&first), pairing_code(&first));
}

#[test]
fn short_code_golden_vector_is_stable() {
    let code = pairing_code(&[0x5a; TRANSCRIPT_HASH_LEN])
        .unwrap_or_else(|error| panic!("derive golden code: {error:?}"));
    assert_eq!(code.value(), 198_987);
    assert_eq!(&code.digits(), b"198987");
}

#[test]
fn code_sampling_skips_words_at_or_above_the_limit() {
    let mut okm = [0xff_u8; 64];
    okm[4..8].copy_from_slice(&1_234_567_u32.to_be_bytes());
    assert_eq!(
        code_from_key_material(&okm).map(|code| code.value()),
        Ok(234_567)
    );
    assert_eq!(
        code_from_key_material(&[0xff; 64]),
        Err(PairingCryptoError::CodeDerivation)
    );
}

#[test]
fn relative_trust_directory_is_rejected() {
    assert_eq!(
        FileTrustStore::new("relative").unwrap_err(),
        StoreError::Persistence
    );
}

#[test]
fn trust_records_round_trip_and_fail_closed() {
    let identity = DeviceIdentity::generate().unwrap_or_else(|e| panic!("{e:?}"));
    let peer = TrustedPeer {
        identity_key: identity.public_key(),
        protocol_version: 1,
    };
    let bytes = encode_peer_record(RecordKind::Trust, &peer);
    assert_eq!(bytes.len(), 71);
    assert_eq!(&bytes[..4], b"HTR1");
    let id = derive_peer_id(&peer.identity_key);
    assert_eq!(id, peer.peer_id());
    assert_eq!(decode_peer_record(&bytes, RecordKind::Trust, Some(id)), Ok(peer));
    assert_eq!(
        decode_peer_record(&bytes, RecordKind::Endpoint, None),
        Err(StoreError::Corrupt)
    );
    let mut other = id;
    other.0[0] ^= 1;
    assert_eq!(
        decode_peer_record(&bytes, RecordKind::Trust, Some(other)),
        Err(StoreError::Corrupt)
    );
    let mut tampered = bytes.clone();
    tampered[10] ^= 1;
    assert_eq!(
        decode_peer_record(&tampered, RecordKind::Trust, None),
        Err(StoreError::Corrupt)
    );

    let endpoint = RememberedEndpoint {
        address: IpAddr::V4([192, 168, 1, 20]),
        peer,
    };
    let record = encode_remembered_endpoint(&endpoint);
    assert_eq!(record.len(), 88);
    assert_eq!(decode_remembered_endpoint(&record), Ok(endpoint));
    let mut bad_family = record.clone();
    bad_family[4] = 5;
    assert_eq!(
        decode_remembered_endpoint(&bad_family),
        Err(StoreError::Corrupt)
    );
    let stem = endpoint_file_stem(&IpAddr::V4([192, 168, 1, 20]));
    assert_eq!(stem.len(), 64);
    assert_ne!(stem, endpoint_file_stem(&IpAddr::V4([192, 168, 1, 21])));
}

#[test]
fn public_keys_are_canonical_uncompressed_points() {
    let identity = DeviceIdentity::generate().unwrap_or_else(|error| panic!("identity: {error:?}"));
    let key = identity.public_key();
    assert_eq!(key.as_bytes().len(), 65);
    assert_eq!(key.as_bytes()[0], 0x04);
    assert_eq!(IdentityPublicKey::from_bytes(*key.as_bytes()), Ok(key));
    let mut compressed_tag = *key.as_bytes();
    compressed_tag[0] = 0x02;
    assert!(IdentityPublicKey::from_bytes(compressed_tag).is_err());
}

#[test]
fn high_s_signatures_are_refused() {
    let identity = DeviceIdentity::generate().unwrap_or_else(|error| panic!("identity: {error:?}"));
    let signature = identity.sign(b"message").unwrap_or_else(|error| panic!("sign: {error:?}"));
    let key = identity.public_key();
    assert_eq!(key.verify(b"message", &signature), Ok(()));
    // s' = n - s is the high-S twin of a valid low-S signature.
    let order: [u8; 32] = [
        0xff, 0xff, 0xff, 0xff, 0x00, 0x00, 0x00, 0x00, 0xff, 0xff, 0xff, 0xff, 0xff, 0xff, 0xff,
        0xff, 0xbc, 0xe6, 0xfa, 0xad, 0xa7, 0x17, 0x9e, 0x84, 0xf3, 0xb9, 0xca, 0xc2, 0xfc, 0x63,
        0x25, 0x51,
    ];
    let mut bytes = *signature.as_bytes();
    let mut borrow = 0i16;
    for i in (0..32).rev() {
        let d = order[i] as i16 - bytes[32 + i] as i16 - borrow;
        borrow = if d < 0 { 1 } else { 0 };
        bytes[32 + i] = (d + 256 * borrow) as u8;
    }
    assert_eq!(
        key.verify(b"message", &halo::crypto::identity::IdentitySignature::from_bytes(bytes)),
        Err(IdentityError::NonCanonicalSignature)
    );
}

#[test]
fn hellos_from_a_nonce_are_deterministic_and_verify() {
    let identity = DeviceIdentity::generate().unwrap_or_else(|error| panic!("identity: {error:?}"));
    let binding = TlsChannelBinding::new([7; 32]);
    let versions = range(1, 3);
    let first = client_hello_from_nonce(&identity, versions, Capabilities(5), binding, [9; 32])
        .unwrap_or_else(|error| panic!("hello: {error:?}"));
    let again = client_hello_from_nonce(&identity, versions, Capabilities(5), binding, [9; 32])
        .unwrap_or_else(|error| panic!("hello: {error:?}"));
    assert_eq!(first, again);
    assert_eq!(first.nonce, [9; 32]);
    assert_eq!(first.identity_key, *identity.public_key().as_bytes());
    assert_eq!(verify_client_hello(&first, binding), Ok(identity.public_key()));
    let frame = PairingMessage::ClientHello(first.clone()).encode();
    let server = server_hello_from_nonce(&identity, 3, versions, Capabilities(0), &frame, binding, [4; 32])
        .unwrap_or_else(|error| panic!("server hello: {error:?}"));
    assert_eq!(server.selected_version, 3);
    assert_eq!(server.nonce, [4; 32]);
    assert_eq!(
        verify_server_hello(&frame, &first, &server, binding),
        Ok(identity.public_key())
    );
}

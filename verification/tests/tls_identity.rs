use halo::service::pairing::{
    bound_socket_eligible, check_bound_socket, create_platform_tls_identity, BoundSocketProperties,
    PairingError,
};
use halo::transport::data_channel::DataChannelCost::{Metered, Unknown, Unmetered};
use halo::transport::data_channel::DataChannelPathClass::{Cellular, LocalNetwork, PeerToPeer};
use halo::transport::data_channel::LocalNetworkScope::{Shared, UserApprovedHotspot};
use halo::transport::data_channel::{DataChannelCost, DataChannelPathClass, LocalNetworkScope};
use halo::transport::quic::{
    generate_native_tls_identity, native_identity_from, QuicEndpointError, MAX_CERTIFICATE_LEN,
};
use p256::SecretKey;

fn socket(
    path_class: DataChannelPathClass,
    local_network_scope: Option<LocalNetworkScope>,
    cost: DataChannelCost,
    interface_bound: bool,
) -> BoundSocketProperties {
    BoundSocketProperties { path_class, cost, local_network_scope, interface_bound }
}

#[test]
fn pinned_sockets_follow_the_eligibility_rule() {
    assert!(bound_socket_eligible(&socket(LocalNetwork, Some(Shared), Unmetered, true)));
    assert!(!bound_socket_eligible(&socket(LocalNetwork, Some(Shared), Metered, true)));
    assert!(bound_socket_eligible(&socket(LocalNetwork, Some(UserApprovedHotspot), Metered, true)));
    assert!(bound_socket_eligible(&socket(LocalNetwork, Some(UserApprovedHotspot), Unknown, true)));
    assert!(bound_socket_eligible(&socket(PeerToPeer, None, Unmetered, true)));
    assert!(!bound_socket_eligible(&socket(PeerToPeer, Some(Shared), Unmetered, true)));
    assert!(!bound_socket_eligible(&socket(LocalNetwork, None, Unmetered, true)));
    assert!(!bound_socket_eligible(&socket(Cellular, None, Unmetered, true)));
    assert!(!bound_socket_eligible(&socket(LocalNetwork, Some(Shared), Unmetered, false)));
    assert_eq!(
        check_bound_socket(&socket(LocalNetwork, Some(Shared), Unmetered, false)),
        Err(PairingError::IneligiblePath)
    );
    assert_eq!(check_bound_socket(&socket(PeerToPeer, None, Unmetered, true)), Ok(()));
}

#[test]
fn native_tls_identity_uses_apple_p256_external_representation() {
    let identity = generate_native_tls_identity()
        .unwrap_or_else(|error| panic!("native TLS identity: {error:?}"));
    assert!(!identity.certificate_der.is_empty());
    assert!(identity.certificate_der.len() <= MAX_CERTIFICATE_LEN);
    assert_eq!(identity.private_key_x963.len(), 97);
    assert_eq!(identity.private_key_x963[0], 4);
    let secret = SecretKey::from_slice(&identity.private_key_x963[65..])
        .unwrap_or_else(|error| panic!("native TLS secret: {error}"));
    assert_eq!(
        secret.public_key().to_sec1_bytes().as_ref(),
        &identity.private_key_x963[..65]
    );
}

#[test]
fn platform_tls_identities_are_fresh() {
    let first = create_platform_tls_identity().unwrap_or_else(|error| panic!("tls: {error:?}"));
    let second = create_platform_tls_identity().unwrap_or_else(|error| panic!("tls: {error:?}"));
    assert_eq!(first.private_key_x963.len(), 97);
    assert_eq!(first.private_key_x963[0], 4);
    assert_ne!(first.private_key_x963, second.private_key_x963);
}

#[test]
fn native_identity_refuses_bad_inputs() {
    assert_eq!(
        native_identity_from(vec![1, 2, 3], b"not a key document").err(),
        Some(QuicEndpointError::Certificate)
    );
}

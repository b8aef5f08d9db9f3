use halo::crypto::identity::DeviceIdentity;
use halo::crypto::listing::{
    check_listing_limit, count_visit, sort_remembered_endpoints, sort_trusted_peers,
};
use halo::crypto::store::{RememberedEndpoint, StoreError, TrustedPeer};
use halo::net::IpAddr;

fn peer(version: u16) -> TrustedPeer {
    TrustedPeer { identity_key: DeviceIdentity::generate().unwrap().public_key(), protocol_version: version }
}

#[test]
fn listing_limits_are_bounded() {
    assert_eq!(check_listing_limit(0), Err(StoreError::Persistence));
    assert_eq!(check_listing_limit(1), Ok(()));
    assert_eq!(check_listing_limit(1024), Ok(()));
    assert_eq!(check_listing_limit(1025), Err(StoreError::Persistence));
    assert_eq!(count_visit(0), Ok(1));
    assert_eq!(count_visit(1023), Ok(1024));
    assert_eq!(count_visit(1024), Err(StoreError::Persistence));
}

#[test]
fn trusted_peers_list_in_peer_id_order_and_are_cut() {
    let peers: Vec<TrustedPeer> = (0..6).map(peer).collect();
    let mut expected = peers.clone();
    expected.sort_by_key(|p| *p.peer_id().as_bytes());
    assert_eq!(sort_trusted_peers(peers.clone(), 10), expected);
    assert_eq!(sort_trusted_peers(peers, 3), expected[..3].to_vec());
}

#[test]
fn remembered_endpoints_list_in_address_order() {
    let p = peer(1);
    let mut v6 = [0u8; 16];
    v6[0] = 0xfe;
    v6[15] = 1;
    let endpoints = vec![
        RememberedEndpoint { address: IpAddr::V6(v6), peer: p },
        RememberedEndpoint { address: IpAddr::V4([192, 168, 1, 9]), peer: p },
        RememberedEndpoint { address: IpAddr::V4([10, 0, 0, 1]), peer: p },
    ];
    let sorted = sort_remembered_endpoints(endpoints, 10);
    let addresses: Vec<IpAddr> = sorted.iter().map(|e| e.address).collect();
    assert_eq!(
        addresses,
        vec![IpAddr::V4([10, 0, 0, 1]), IpAddr::V4([192, 168, 1, 9]), IpAddr::V6(v6)]
    );
    assert_eq!(sort_remembered_endpoints(sorted, 1).len(), 1);
}

use halo::discovery::error::ProviderError;
use halo::discovery::model::{
    Capabilities, LocalPresence, PresenceId, ProtocolRange, ProviderId, ProviderKind,
};
use halo::discovery::providers::interfaces::{
    eligible_interfaces, eligible_ip_addresses, v4_addresses, v6_interface_indexes,
    InterfaceAddress, InterfaceInfo, V4InterfaceAddress,
};
use halo::discovery::providers::mdns::{
    mdns_publication, resolved_observation, validate_mdns_config, MdnsConfig, ResolvedAddress,
    ResolvedNames,
};
use halo::net::{IpAddr, SocketAddr};
use halo::service::discovery::presence_id_text;
use halo::text::parse_unsigned;
use halo::time::Duration;

fn interface(name: &str, internal: bool, index: u32, addresses: Vec<InterfaceAddress>) -> InterfaceInfo {
    InterfaceInfo { name: name.to_owned(), internal, index, addresses }
}

fn v4(ip: [u8; 4]) -> InterfaceAddress {
    InterfaceAddress::V4 { ip, broadcast: Some([ip[0], ip[1], ip[2], 255]) }
}

fn v6(first: u8, last: u8) -> InterfaceAddress {
    let mut ip = [0u8; 16];
    ip[0] = first;
    ip[15] = last;
    InterfaceAddress::V6 { ip }
}

#[test]
fn unsigned_text_follows_rust_parsing() {
    assert_eq!(parse_unsigned("65535", 10, 65535), Some(65535));
    assert_eq!(parse_unsigned("65536", 10, 65535), None);
    assert_eq!(parse_unsigned("+7", 10, 65535), Some(7));
    assert_eq!(parse_unsigned("-7", 10, 65535), None);
    assert_eq!(parse_unsigned("", 10, 65535), None);
    assert_eq!(parse_unsigned("+", 10, 65535), None);
    assert_eq!(parse_unsigned("1a", 10, 65535), None);
    assert_eq!(parse_unsigned("fF", 16, u64::MAX), Some(255));
    assert_eq!(parse_unsigned("ffffffffffffffff", 16, u64::MAX), Some(u64::MAX));
    assert_eq!(parse_unsigned("10000000000000000", 16, u64::MAX), None);
    assert_eq!(parse_unsigned("0x10", 16, u64::MAX), None);
    for value in [0u64, 1, 9, 10, 4242, 65535] {
        assert_eq!(parse_unsigned(&value.to_string(), 10, 65535), Some(value));
        assert_eq!(u16::from_str_radix(&value.to_string(), 10).ok().map(u64::from), Some(value));
    }
}

#[test]
fn presence_ids_read_back_from_their_text() {
    let id = PresenceId([0x5a, 0x01, 0xff, 0x10, 0, 1, 2, 3, 4, 5, 6, 7, 8, 9, 10, 11]);
    let text = presence_id_text(&id);
    assert_eq!(PresenceId::parse(&text), Ok(id));
    assert_eq!(PresenceId::parse(&text.to_uppercase()), Ok(id));
    assert!(PresenceId::parse("not a uuid").is_err());
}

#[test]
fn resolved_services_become_sorted_observations() {
    let provider = ProviderId::new(ProviderKind::Mdns, "mdns").unwrap();
    let id = PresenceId([7; 16]);
    let text = presence_id_text(&id);
    let addresses = vec![
        ResolvedAddress::V4([192, 168, 1, 9]),
        ResolvedAddress::V4([0, 0, 0, 0]),
        ResolvedAddress::V4([192, 168, 1, 2]),
        ResolvedAddress::V4([192, 168, 1, 9]),
    ];
    let observation = resolved_observation(
        &provider,
        Some(&text),
        Some("1"),
        Some("3"),
        Some("ff"),
        4433,
        &addresses,
        Duration::from_secs(120),
    )
    .unwrap();
    assert_eq!(observation.presence_id, id);
    assert_eq!(observation.capabilities.0, 255);
    assert_eq!(observation.sequence, 0);
    let endpoints: Vec<SocketAddr> = observation.endpoints.iter().map(|e| e.address()).collect();
    assert_eq!(
        endpoints,
        vec![
            SocketAddr::V4 { ip: [192, 168, 1, 2], port: 4433 },
            SocketAddr::V4 { ip: [192, 168, 1, 9], port: 4433 },
        ]
    );
    let missing = resolved_observation(
        &provider,
        Some(&text),
        None,
        Some("3"),
        Some("ff"),
        4433,
        &addresses,
        Duration::from_secs(120),
    );
    assert!(missing.is_none());
    let inverted = resolved_observation(
        &provider,
        Some(&text),
        Some("4"),
        Some("3"),
        Some("ff"),
        4433,
        &addresses,
        Duration::from_secs(120),
    );
    assert!(inverted.is_none());
}

#[test]
fn interfaces_and_addresses_are_filtered_and_ordered() {
    let list = vec![
        interface("en0", false, 4, vec![v4([192, 168, 1, 20]), v6(0xfe, 1), v4([127, 0, 0, 1])]),
        interface("lo0", true, 1, vec![v4([127, 0, 0, 1])]),
        interface("utun3", false, 9, vec![v4([10, 8, 0, 2])]),
        interface("en1", false, 5, vec![v4([10, 0, 0, 3]), v4([192, 168, 1, 20])]),
        interface("bridge", false, 0, vec![v6(0x20, 2)]),
    ];
    let eligible = eligible_interfaces(list.clone());
    let names: Vec<&str> = eligible.iter().map(|i| i.name.as_str()).collect();
    assert_eq!(names, vec!["en0", "en1", "bridge"]);
    let addresses = eligible_ip_addresses(&list);
    let mut expected_v6a = [0u8; 16];
    expected_v6a[0] = 0x20;
    expected_v6a[15] = 2;
    let mut expected_v6b = [0u8; 16];
    expected_v6b[0] = 0xfe;
    expected_v6b[15] = 1;
    assert_eq!(
        addresses,
        vec![
            IpAddr::V4([10, 0, 0, 3]),
            IpAddr::V4([192, 168, 1, 20]),
            IpAddr::V6(expected_v6a),
            IpAddr::V6(expected_v6b),
        ]
    );
    assert_eq!(
        v4_addresses(&eligible),
        vec![
            V4InterfaceAddress { address: [192, 168, 1, 20], broadcast: Some([192, 168, 1, 255]) },
            V4InterfaceAddress { address: [10, 0, 0, 3], broadcast: Some([10, 0, 0, 255]) },
        ]
    );
    assert_eq!(v6_interface_indexes(&eligible), vec![4]);
}

#[test]
fn mdns_publication_reads_back_as_the_local_presence() {
    let presence_id = PresenceId::from_bytes([
        0x01, 0x23, 0x45, 0x67, 0x89, 0xab, 0xcd, 0xef, 0x40, 0x11, 0x82, 0x22, 0x33, 0x44, 0x55,
        0x66,
    ]);
    let local = LocalPresence::new(
        presence_id,
        ProtocolRange::new(1, 12).unwrap(),
        Capabilities::from_bits(0x2a),
        4433,
    )
    .unwrap();
    let publication = mdns_publication(&local);
    assert_eq!(publication.instance, "halo-0123456789ab");
    assert_eq!(publication.hostname, "halo-0123456789ab.local.");
    assert_eq!(publication.id, "01234567-89ab-cdef-4011-822233445566");
    assert_eq!(publication.min, "1");
    assert_eq!(publication.max, "12");
    assert_eq!(publication.cap, "000000000000002a");
    let provider = ProviderId::builtin(ProviderKind::Mdns, "mdns");
    let observation = resolved_observation(
        &provider,
        Some(&publication.id),
        Some(&publication.min),
        Some(&publication.max),
        Some(&publication.cap),
        4433,
        &vec![ResolvedAddress::V4([192, 168, 1, 9])],
        Duration::from_secs(30),
    )
    .expect("the published record resolves");
    assert_eq!(observation.presence_id, presence_id);
    assert_eq!(observation.protocol, ProtocolRange::new(1, 12).unwrap());
    assert_eq!(observation.capabilities.bits(), 0x2a);
}

#[test]
fn removed_services_withdraw_what_they_resolved_to() {
    let first = PresenceId::from_bytes([1; 16]);
    let second = PresenceId::from_bytes([2; 16]);
    let mut names = ResolvedNames::new();
    names.insert("a._halo._udp.local.", first);
    names.insert("b._halo._udp.local.", second);
    names.insert("a._halo._udp.local.", second);
    assert_eq!(names.remove("a._halo._udp.local."), Some(second));
    assert_eq!(names.remove("a._halo._udp.local."), None);
    assert_eq!(names.remove("b._halo._udp.local."), Some(second));
    let mut config = MdnsConfig::default();
    assert_eq!(validate_mdns_config(&config), Ok(()));
    config.observation_ttl = Duration::from_secs(0);
    assert!(matches!(validate_mdns_config(&config), Err(ProviderError::InvalidConfig(_))));
}

use sonoff_diy::netutils::{host_ips, matching_host_ip_for};
use sonoff_diy::{Device, DeviceCache, Error, HostNet, IfaceInfo, IpAddress};

fn v4(a: u8, b: u8, c: u8, d: u8) -> IpAddress {
    IpAddress::v4_from_octets(a, b, c, d)
}

#[test]
fn host_ips_computes_prefixes_from_netmasks() {
    let ifaces = vec![
        IfaceInfo { addr: Some(v4(192, 168, 1, 10)), mask: Some(v4(255, 255, 255, 0)) },
        IfaceInfo { addr: Some(v4(10, 0, 0, 2)), mask: Some(v4(255, 0, 0, 0)) },
        IfaceInfo { addr: None, mask: Some(v4(255, 255, 0, 0)) },
        IfaceInfo { addr: Some(v4(172, 16, 0, 1)), mask: None },
    ];
    let nets = host_ips(&ifaces);
    assert_eq!(nets.len(), 2);
    assert_eq!(nets[0], HostNet { ip: v4(192, 168, 1, 10), prefix_len: 24 });
    assert_eq!(nets[1], HostNet { ip: v4(10, 0, 0, 2), prefix_len: 8 });
}

#[test]
fn matching_host_ip_picks_the_containing_network() {
    let nets = vec![
        HostNet { ip: v4(10, 0, 0, 2), prefix_len: 8 },
        HostNet { ip: v4(192, 168, 1, 10), prefix_len: 24 },
    ];
    let device = v4(192, 168, 1, 77);
    let picked = matching_host_ip_for(&device, &nets).expect("a matching interface");
    assert_eq!(picked, v4(192, 168, 1, 10));
}

#[test]
fn no_matching_network_is_an_error() {
    let nets = vec![HostNet { ip: v4(192, 168, 1, 10), prefix_len: 24 }];
    let other = v4(192, 168, 2, 77);
    match matching_host_ip_for(&other, &nets) {
        Err(Error::GenericError { msg }) => assert_eq!(msg, "no usable interface found"),
        _ => panic!("an address outside every network must be an error"),
    }
}

#[test]
fn cache_deduplicates_by_id() {
    let desc = vec!["id=aaa".to_string()];
    let d1 = Device::new("plug", "aaa", &desc, v4(127, 0, 0, 1), 1);
    let d1_again = Device::new("plug-renamed", "aaa", &desc, v4(127, 0, 0, 2), 2);
    let d2 = Device::new("other", "bbb", &desc, v4(127, 0, 0, 3), 3);
    let mut cache = DeviceCache::default();
    assert!(cache.add(&d1));
    assert!(!cache.add(&d1_again));
    assert!(cache.add(&d2));
    assert_eq!(cache.devices().len(), 2);
}

#[test]
fn cache_lookup_finds_by_id() {
    let desc = vec!["id=aaa".to_string()];
    let d1 = Device::new("plug", "aaa", &desc, v4(127, 0, 0, 1), 1);
    let mut cache = DeviceCache::new(Vec::new());
    cache.add(&d1);
    let found = cache.lookup("aaa").expect("device in the cache");
    assert_eq!(found.name, "plug");
    match cache.lookup("zzz") {
        Err(Error::DeviceNotFound { device_id }) => assert_eq!(device_id, "zzz"),
        _ => panic!("an unknown id must be a not-found error"),
    }
}

#[test]
fn v6_addresses_match_by_prefix() {
    let home = IpAddress::v6_from_segments([0x2001, 0xdb8, 0, 0, 0, 0, 0, 1]);
    let device = IpAddress::v6_from_segments([0x2001, 0xdb8, 0, 0, 0, 0, 0, 0x42]);
    let stranger = IpAddress::v6_from_segments([0x2001, 0xdb9, 0, 0, 0, 0, 0, 0x42]);
    assert_eq!(home, IpAddress::V6(0x2001_0db8_0000_0000_0000_0000_0000_0001));
    let nets = vec![HostNet { ip: home, prefix_len: 64 }];
    assert_eq!(matching_host_ip_for(&device, &nets).unwrap(), home);
    assert!(matching_host_ip_for(&stranger, &nets).is_err());
}

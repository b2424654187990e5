use sonoff_diy::device_attr::{DeviceAttributes, Record, RecordKind};
use sonoff_diy::{Device, IpAddress, Scanner};

fn mk_txt_record(name: &str, v: Vec<&str>) -> Record {
    Record {
        name: name.to_string(),
        kind: RecordKind::Txt(v.into_iter().map(String::from).collect()),
    }
}

fn mk_srv_record(name: &str, port: u16) -> Record {
    Record { name: name.to_string(), kind: RecordKind::Srv { port } }
}

fn mk_a_record(name: &str, ip: IpAddress) -> Record {
    Record { name: name.to_string(), kind: RecordKind::A(ip) }
}

fn localhost() -> IpAddress {
    IpAddress::v4_from_octets(127, 0, 0, 1)
}

fn full_txt() -> Vec<&'static str> {
    vec![
        "txtvers=1",
        "id=ababababab",
        "type=diy_plug",
        "apivers=1",
        "seq=1",
        "data1={\"switch\":\"off\",\"startup\":\"off\",\"pulse\":\"off\",\"pulseWidth\":500,\"rssi\":-28}",
    ]
}

#[test]
fn add_should_shorten_the_name() {
    let mut attrs = DeviceAttributes::default();
    attrs.add(&mk_txt_record(
        "eWeLink_ababababab._ewelink._tcp.local",
        Vec::new(),
    ));
    if attrs.contains_name("eWeLink_ababababab") {
        // ok
    } else {
        panic!("attribute not found");
    }
}

#[test]
fn add_should_return_the_device_when_all_attributes_are_present() {
    let mut attrs = DeviceAttributes::default();

    assert!(attrs
        .add(&mk_a_record("eWeLink_ababababab.local", localhost()))
        .is_none());

    assert!(attrs
        .add(&mk_srv_record("eWeLink_ababababab._ewelink._tcp.local", 8081))
        .is_none());

    if let Some(device) = attrs.add(&mk_txt_record(
        "eWeLink_ababababab._ewelink._tcp.local",
        full_txt(),
    )) {
        assert_eq!(device.id, "ababababab");
        assert_eq!(device.ip, localhost());
        assert_eq!(device.port, 8081);
    } else {
        panic!("device not found");
    }
}

#[test]
fn any_order_yields_the_same_device() {
    // The three records in another order: TXT first, SRV second, A last.
    let mut attrs = DeviceAttributes::new();
    assert!(attrs
        .add(&mk_txt_record("plug._ewelink._tcp.local", vec!["id=xyz"]))
        .is_none());
    assert!(attrs.add(&mk_srv_record("plug.local", 9000)).is_none());
    let device = attrs
        .add(&mk_a_record("plug.local", localhost()))
        .expect("third record should complete the device");
    assert_eq!(device.name, "plug");
    assert_eq!(device.id, "xyz");
    assert_eq!(device.port, 9000);
    assert_eq!(device.ip, localhost());
    assert_eq!(device.desc, vec!["id=xyz".to_string()]);
}

#[test]
fn strict_subset_yields_no_device() {
    let mut attrs = DeviceAttributes::new();
    assert!(attrs
        .add(&mk_txt_record("plug.local", vec!["id=xyz"]))
        .is_none());
    assert!(attrs.add(&mk_a_record("plug.local", localhost())).is_none());
    // Description and address are there; the port is still missing.
}

#[test]
fn missing_id_never_emits() {
    let mut attrs = DeviceAttributes::new();
    assert!(attrs
        .add(&mk_txt_record("plug.local", vec!["txtvers=1", "type=diy_plug"]))
        .is_none());
    assert!(attrs.add(&mk_a_record("plug.local", localhost())).is_none());
    assert!(attrs.add(&mk_srv_record("plug.local", 9000)).is_none());
    // All three kinds arrived, but no id= entry: the entry stays parked.
    assert!(attrs.contains_name("plug"));
}

#[test]
fn emission_deletes_the_entry() {
    let mut attrs = DeviceAttributes::new();
    attrs.add(&mk_txt_record("plug.local", vec!["id=xyz"]));
    attrs.add(&mk_a_record("plug.local", localhost()));
    assert!(attrs.add(&mk_srv_record("plug.local", 9000)).is_some());
    assert!(!attrs.contains_name("plug"));
    // Re-sending a single record cannot re-emit: the slots start over.
    assert!(attrs
        .add(&mk_txt_record("plug.local", vec!["id=xyz"]))
        .is_none());
    assert!(attrs.add(&mk_a_record("plug.local", localhost())).is_none());
    // Only once address and port are re-established does it emit again.
    assert!(attrs.add(&mk_srv_record("plug.local", 9000)).is_some());
}

#[test]
fn scanner_returns_a_device_once() {
    let burst = vec![
        mk_txt_record("plug._ewelink._tcp.local", vec!["id=xyz"]),
        mk_a_record("plug.local", localhost()),
        mk_srv_record("plug.local", 9000),
    ];
    let mut scanner = Scanner::new("_ewelink._tcp".to_string());
    let first = scanner.process_burst(&burst);
    assert!(first.is_some());
    assert_eq!(first.unwrap().id, "xyz");
    // The second burst resolves to the same device: silently dropped.
    let second = scanner.process_burst(&burst);
    assert!(second.is_none());
}

#[test]
fn scanner_returns_a_changed_device_again() {
    let mut scanner = Scanner::new("_ewelink._tcp".to_string());
    let burst = vec![
        mk_txt_record("plug.local", vec!["id=xyz"]),
        mk_a_record("plug.local", localhost()),
        mk_srv_record("plug.local", 9000),
    ];
    assert!(scanner.process_burst(&burst).is_some());
    // A burst with a different port is a different device value.
    let changed = vec![
        mk_txt_record("plug.local", vec!["id=xyz"]),
        mk_a_record("plug.local", localhost()),
        mk_srv_record("plug.local", 9001),
    ];
    let again = scanner.process_burst(&changed);
    assert!(again.is_some());
    assert_eq!(again.unwrap().port, 9001);
}

#[test]
fn device_equality_is_by_all_fields() {
    let desc = vec!["id=xyz".to_string()];
    let a = Device::new("plug", "xyz", &desc, localhost(), 9000);
    let b = Device::new("plug", "xyz", &desc, localhost(), 9000);
    let c = Device::new("plug", "xyz", &desc, localhost(), 9001);
    assert!(a.same_as(&b));
    assert!(!a.same_as(&c));
}

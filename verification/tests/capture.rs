use netflow_agent::capture::{
    device_matches, is_loopback_lowered, matches_lowered, select_device, str_contains,
    str_eq_ignore_ascii_case, DeviceError, DeviceInfo,
};

fn dev(name: &str, desc: Option<&str>) -> DeviceInfo {
    DeviceInfo { name: name.to_string(), desc: desc.map(|d| d.to_string()) }
}

#[test]
fn device_matches_ethernet0_by_name() {
    let d = dev("Ethernet0", None);
    assert!(device_matches(&d, "Ethernet0"));
}

#[test]
fn device_matching_rules() {
    let d = dev("\\Device\\NPF_{1234}", Some("Intel(R) Ethernet Connection"));
    assert!(device_matches(&d, "intel(r) ethernet"));
    assert!(device_matches(&d, "npf_{1234}"));
    assert!(!device_matches(&d, "wi-fi"));
    assert!(device_matches(&dev("eth0", None), "ETH0"));
    assert!(!device_matches(&dev("eth0", None), "eth1"));
}

#[test]
fn selects_first_matching_or_first_non_loopback() {
    let devs = vec![
        dev("lo", Some("Npcap Loopback Adapter")),
        dev("Loopback0", None),
        dev("eth0", Some("Wired")),
        dev("eth1", Some("Wired")),
    ];
    assert_eq!(select_device(&devs, "wired"), Ok(2));
    assert_eq!(select_device(&devs, "eth1"), Ok(3));
    assert_eq!(select_device(&devs, "wlan0"), Err(DeviceError::NotFound));
    // "lo" does not contain "loopback"; only the description does.
    assert_eq!(select_device(&devs, "auto"), Ok(0));
    assert_eq!(select_device(&devs[1..2], "auto"), Err(DeviceError::NoNonLoopback));
    assert_eq!(select_device(&[], "auto"), Err(DeviceError::NoDevices));
    assert_eq!(select_device(&[], "eth0"), Err(DeviceError::NoDevices));
}

#[test]
fn string_helpers() {
    assert!(str_contains("npcap loopback adapter", "loopback"));
    assert!(str_contains("abc", ""));
    assert!(!str_contains("ab", "abc"));
    assert!(!str_contains("eth0", "eth1"));
    assert!(str_eq_ignore_ascii_case("Ethernet0", "eTHERNET0"));
    assert!(!str_eq_ignore_ascii_case("Ethernet0", "Ethernet"));
    assert!(!str_eq_ignore_ascii_case("\u{e9}", "\u{c9}"));
}

#[test]
fn matching_on_lowercased_strings() {
    assert!(matches_lowered("Eth0", "eth0", None, "ETH0", "eth0"));
    assert!(matches_lowered("X", "x", Some("wired adapter"), "Wired", "wired"));
    assert!(!matches_lowered("X", "x", Some("wired adapter"), "Wifi", "wifi"));
    assert!(is_loopback_lowered("npcap loopback adapter"));
    assert!(is_loopback_lowered("loopback0"));
    assert!(!is_loopback_lowered("lo"));
}

use eab::network::{
    discovery_targets_for, distinct_peers, env_flag, extra_bind_addr, multicast_configs,
    multicast_interfaces_for_bind_addr, multicast_targets, scope_interface,
    select_ipv6_multicast_interfaces, select_multicast_interfaces_for_bind_ip,
    should_ignore_bootstrap_send_error, InterfaceCandidate, IpValue, MulticastConfig, NetAddr,
    DEFAULT_EAB_MULTICAST_GROUP,
};

fn v4(a: u8, b: u8, c: u8, d: u8) -> u32 {
    u32::from_be_bytes([a, b, c, d])
}

/// `::1`.
const IPV6_LOCALHOST: u128 = 1;

fn v6(segments: [u16; 8]) -> u128 {
    segments.iter().fold(0u128, |acc, s| (acc << 16) | u128::from(*s))
}

#[test]
fn discovery_targets_include_ipv6_multicast_group() {
    let bind_addr = NetAddr::V4 { ip: v4(127, 0, 0, 1), port: 8080 };
    let peer = NetAddr::V4 { ip: v4(127, 0, 0, 1), port: 9800 };
    let multicast = [MulticastConfig::V6 { group: DEFAULT_EAB_MULTICAST_GROUP, interface: 7 }];

    let targets = discovery_targets_for(bind_addr, &[peer], &multicast);
    assert!(targets.contains(&peer));
    assert!(targets.contains(&NetAddr::V6 {
        ip: DEFAULT_EAB_MULTICAST_GROUP,
        port: 8080,
        flowinfo: 0,
        scope_id: 7,
    }));
}

#[test]
fn bind_ip_prefers_matching_non_loopback_multicast_interface() {
    let selected = select_multicast_interfaces_for_bind_ip(
        IpValue::V4(v4(192, 168, 1, 146)),
        &[
            InterfaceCandidate { index: 7, ip: IpValue::V4(v4(10, 0, 0, 5)), is_loopback: false },
            InterfaceCandidate { index: 16, ip: IpValue::V4(v4(192, 168, 1, 146)), is_loopback: false },
            InterfaceCandidate {
                index: 20,
                ip: IpValue::V6(IPV6_LOCALHOST),
                is_loopback: false,
            },
        ],
    );
    assert_eq!(selected, vec![16]);
}

#[test]
fn default_group_is_the_eab_link_local_group() {
    assert_eq!(DEFAULT_EAB_MULTICAST_GROUP, v6([0xff02, 0, 0, 0, 0, 0x4541, 0x4200, 0x1]));
}

#[test]
fn discovery_targets_are_each_sent_once_peers_first() {
    let bind_addr = NetAddr::V4 { ip: 0, port: 4000 };
    let peer = NetAddr::V4 { ip: v4(10, 0, 0, 2), port: 4000 };
    let multicast = [
        MulticastConfig::V4 { group: v4(239, 1, 2, 3), interface: 0 },
        MulticastConfig::V4 { group: v4(239, 1, 2, 3), interface: 0 },
    ];
    let targets = discovery_targets_for(bind_addr, &[peer, peer], &multicast);
    assert_eq!(targets, vec![peer, NetAddr::V4 { ip: v4(239, 1, 2, 3), port: 4000 }]);
    assert_eq!(multicast_targets(bind_addr, &multicast).len(), 2);
}

#[test]
fn loopback_interfaces_are_chosen_only_without_others() {
    let bind = IpValue::V4(v4(127, 0, 0, 1));
    let loopback = [
        InterfaceCandidate { index: 1, ip: bind, is_loopback: true },
        InterfaceCandidate { index: 1, ip: bind, is_loopback: true },
    ];
    assert_eq!(select_multicast_interfaces_for_bind_ip(bind, &loopback), vec![1]);
    assert_eq!(
        multicast_interfaces_for_bind_addr(NetAddr::V4 { ip: v4(127, 0, 0, 1), port: 1 }, &loopback),
        Some(vec![1])
    );
    assert_eq!(multicast_interfaces_for_bind_addr(NetAddr::V4 { ip: 0, port: 1 }, &loopback), None);
    assert_eq!(
        multicast_interfaces_for_bind_addr(NetAddr::V4 { ip: v4(10, 0, 0, 9), port: 1 }, &loopback),
        None
    );
}

#[test]
fn ipv6_interfaces_prefer_non_loopback_and_refuse_none() {
    let lo = IPV6_LOCALHOST;
    let candidates = [
        InterfaceCandidate { index: 1, ip: IpValue::V6(lo), is_loopback: true },
        InterfaceCandidate { index: 3, ip: IpValue::V4(v4(10, 0, 0, 1)), is_loopback: false },
        InterfaceCandidate { index: 4, ip: IpValue::V6(lo + 5), is_loopback: false },
        InterfaceCandidate { index: 4, ip: IpValue::V6(lo + 6), is_loopback: false },
    ];
    assert_eq!(select_ipv6_multicast_interfaces(&candidates).unwrap(), vec![4]);
    assert_eq!(select_ipv6_multicast_interfaces(&candidates[..1]).unwrap(), vec![1]);
    assert_eq!(
        select_ipv6_multicast_interfaces(&candidates[1..2]).unwrap_err(),
        "no IPv6 multicast-capable interfaces found"
    );
}

#[test]
fn group_is_joined_once_per_interface() {
    let configs = multicast_configs(DEFAULT_EAB_MULTICAST_GROUP, &[3, 3, 5]);
    assert_eq!(
        configs,
        vec![
            MulticastConfig::V6 { group: DEFAULT_EAB_MULTICAST_GROUP, interface: 3 },
            MulticastConfig::V6 { group: DEFAULT_EAB_MULTICAST_GROUP, interface: 5 },
        ]
    );
    assert_eq!(
        scope_interface(NetAddr::V6 { ip: 1, port: 1, flowinfo: 0, scope_id: 9 }),
        Some(9)
    );
    assert_eq!(scope_interface(NetAddr::V6 { ip: 1, port: 1, flowinfo: 0, scope_id: 0 }), None);
}

#[test]
fn peers_skip_the_node_itself_and_repeats() {
    let me = NetAddr::V4 { ip: v4(10, 0, 0, 1), port: 9000 };
    let other = NetAddr::V4 { ip: v4(10, 0, 0, 2), port: 9000 };
    assert_eq!(distinct_peers(&[me, other, other, me], me), vec![other]);
}

#[test]
fn mixed_families_get_a_second_socket() {
    let bind = NetAddr::V4 { ip: 0, port: 7000 };
    let v6_peer = NetAddr::V6 { ip: 1, port: 7000, flowinfo: 0, scope_id: 0 };
    assert_eq!(
        extra_bind_addr(bind, &[v6_peer], &[]),
        Some(NetAddr::V6 { ip: 0, port: 7000, flowinfo: 0, scope_id: 0 })
    );
    assert_eq!(extra_bind_addr(bind, &[], &[]), None);
    let v6_bind = NetAddr::V6 { ip: 0, port: 7001, flowinfo: 0, scope_id: 0 };
    assert_eq!(
        extra_bind_addr(v6_bind, &[], &[MulticastConfig::V4 { group: v4(239, 0, 0, 1), interface: 0 }]),
        Some(NetAddr::V4 { ip: 0, port: 7001 })
    );
}

#[test]
fn flags_accept_the_usual_spellings() {
    for on in ["1", "true", " YES ", "On"] {
        assert!(env_flag(Some(on)));
    }
    for off in ["0", "no", "", "enabled"] {
        assert!(!env_flag(Some(off)));
    }
    assert!(!env_flag(None));
}

#[test]
fn unroutable_multicast_send_errors_are_ignored() {
    let group = NetAddr::V6 { ip: DEFAULT_EAB_MULTICAST_GROUP, port: 1, flowinfo: 0, scope_id: 2 };
    let unicast = NetAddr::V4 { ip: v4(10, 0, 0, 1), port: 1 };
    assert!(should_ignore_bootstrap_send_error(group, "send failed: No route to host (os error 65)"));
    assert!(should_ignore_bootstrap_send_error(
        NetAddr::V4 { ip: v4(224, 0, 0, 251), port: 1 },
        "Network is unreachable"
    ));
    assert!(!should_ignore_bootstrap_send_error(unicast, "No route to host"));
    assert!(!should_ignore_bootstrap_send_error(group, "Connection refused"));
}

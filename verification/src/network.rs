//! Where a node sends discovery and on which interfaces it joins its
//! multicast group. Addresses are held as numbers: an IPv4 address as a
//! `u32` and an IPv6 address as a `u128`, most significant byte first.
//! Looking addresses up and listing the host's interfaces is the caller's.

use vstd::prelude::*;
use crate::access::opt_str_view;
use crate::identity::{eq_ignore_ascii_case, equal_ignoring_ascii_case};
use crate::node::{trim, trim_piece};
use crate::text::chars_of;

verus! {

/// The IPv6 group a node joins by default: `ff02::4541:4200:1`.
pub const DEFAULT_EAB_MULTICAST_GROUP: u128 = 0xff02_0000_0000_0000_0000_4541_4200_0001;

/// An IP address.
#[derive(Debug, Clone, Copy, PartialEq, Eq, Structural)]
pub enum IpValue {
    V4(u32),
    V6(u128),
}

/// A socket address.
#[derive(Debug, Clone, Copy, PartialEq, Eq, Structural)]
pub enum NetAddr {
    V4 { ip: u32, port: u16 },
    V6 { ip: u128, port: u16, flowinfo: u32, scope_id: u32 },
}

/// A multicast group joined on an interface.
#[derive(Debug, Clone, Copy, PartialEq, Eq, Structural)]
pub enum MulticastConfig {
    V4 { group: u32, interface: u32 },
    V6 { group: u128, interface: u32 },
}

/// A multicast-capable interface of the host, with one of its addresses.
#[derive(Debug, Clone, Copy, PartialEq, Eq, Structural)]
pub struct InterfaceCandidate {
    pub index: u32,
    pub ip: IpValue,
    pub is_loopback: bool,
}

pub open spec fn port_of(a: NetAddr) -> u16 {
    match a {
        NetAddr::V4 { port, .. } => port,
        NetAddr::V6 { port, .. } => port,
    }
}

pub open spec fn ip_of(a: NetAddr) -> IpValue {
    match a {
        NetAddr::V4 { ip, .. } => IpValue::V4(ip),
        NetAddr::V6 { ip, .. } => IpValue::V6(ip),
    }
}

/// Whether an address is a multicast address: `224.0.0.0/4` or `ff00::/8`.
pub open spec fn is_multicast(ip: IpValue) -> bool {
    match ip {
        IpValue::V4(a) => 0xe000_0000u32 <= a <= 0xefff_ffffu32,
        IpValue::V6(a) => 0xff00_0000_0000_0000_0000_0000_0000_0000u128 <= a,
    }
}

/// `s` with every element after its first occurrence dropped.
pub open spec fn without_repeats<T>(s: Seq<T>) -> Seq<T>
    decreases s.len(),
{
    if s.len() == 0 {
        s
    } else {
        let p = without_repeats(s.drop_last());
        if p.contains(s.last()) {
            p
        } else {
            p.push(s.last())
        }
    }
}

/// `without_repeats` keeps every element of `s` and no other, each once:
/// a node sends discovery to each peer and group target exactly once.
pub proof fn lemma_without_repeats_keeps_each_once<T>(s: Seq<T>)
    ensures
        forall|x: T| #[trigger] without_repeats(s).contains(x) <==> s.contains(x),
        forall|i: int, j: int|
            0 <= i < j < without_repeats(s).len() ==> without_repeats(s)[i] != without_repeats(s)[j],
    decreases s.len(),
{
    if s.len() > 0 {
        let t = s.drop_last();
        lemma_without_repeats_keeps_each_once(t);
        let p = without_repeats(t);
        assert forall|x: T| #[trigger] without_repeats(s).contains(x) <==> s.contains(x) by {
            if s.contains(x) {
                let k = choose|k: int| 0 <= k < s.len() && s[k] == x;
                if k < t.len() {
                    assert(t[k] == x);
                    assert(t.contains(x));
                }
            }
            if t.contains(x) {
                let k = choose|k: int| 0 <= k < t.len() && t[k] == x;
                assert(s[k] == x);
            }
            if p.contains(s.last()) {
            } else {
                assert(p.push(s.last())[p.len() as int] == s.last());
                if p.push(s.last()).contains(x) {
                    let k = choose|k: int| 0 <= k < p.len() + 1 && p.push(s.last())[k] == x;
                    if k < p.len() {
                        assert(p[k] == x);
                    }
                }
                if p.contains(x) {
                    let k = choose|k: int| 0 <= k < p.len() && p[k] == x;
                    assert(p.push(s.last())[k] == x);
                }
            }
            assert(s[s.len() - 1] == s.last());
        }
        if !p.contains(s.last()) {
            let w = p.push(s.last());
            assert forall|i: int, j: int| 0 <= i < j < w.len() implies w[i] != w[j] by {
                if j == p.len() {
                    assert(w[i] == p[i]);
                }
            }
        }
    }
}

/// Where a multicast group is reached from a node bound to `port`.
pub open spec fn multicast_target(port: u16, m: MulticastConfig) -> NetAddr {
    match m {
        MulticastConfig::V4 { group, .. } => NetAddr::V4 { ip: group, port: port },
        MulticastConfig::V6 { group, interface } => NetAddr::V6 {
            ip: group,
            port: port,
            flowinfo: 0,
            scope_id: interface,
        },
    }
}

pub open spec fn targets_of(port: u16, ms: Seq<MulticastConfig>) -> Seq<NetAddr>
    decreases ms.len(),
{
    if ms.len() == 0 {
        Seq::empty()
    } else {
        targets_of(port, ms.drop_last()).push(multicast_target(port, ms.last()))
    }
}

proof fn lemma_prefix_step<T>(s: Seq<T>, i: int)
    requires
        0 <= i < s.len(),
    ensures
        s.subrange(0, i + 1).drop_last() == s.subrange(0, i),
        s.subrange(0, i + 1).last() == s[i],
{
    assert(s.subrange(0, i + 1).drop_last() =~= s.subrange(0, i));
}

proof fn lemma_without_repeats_push<T>(s: Seq<T>, x: T)
    ensures
        without_repeats(s.push(x)) == (if without_repeats(s).contains(x) {
            without_repeats(s)
        } else {
            without_repeats(s).push(x)
        }),
{
    assert(s.push(x).drop_last() =~= s);
}

fn push_new_addr(out: &mut Vec<NetAddr>, a: NetAddr)
    ensures
        final(out)@ == (if old(out)@.contains(a) {
            old(out)@
        } else {
            old(out)@.push(a)
        }),
{
    let mut i: usize = 0;
    while i < out.len()
        invariant
            i <= out@.len(),
            out@ == old(out)@,
            forall|j: int| 0 <= j < i ==> out@[j] != a,
        decreases out@.len() - i,
    {
        if out[i] == a {
            assert(out@[i as int] == a);
            return;
        }
        i = i + 1;
    }
    out.push(a);
}

fn push_new_index(out: &mut Vec<u32>, a: u32)
    ensures
        final(out)@ == (if old(out)@.contains(a) {
            old(out)@
        } else {
            old(out)@.push(a)
        }),
{
    let mut i: usize = 0;
    while i < out.len()
        invariant
            i <= out@.len(),
            out@ == old(out)@,
            forall|j: int| 0 <= j < i ==> out@[j] != a,
        decreases out@.len() - i,
    {
        if out[i] == a {
            assert(out@[i as int] == a);
            return;
        }
        i = i + 1;
    }
    out.push(a);
}

fn push_new_config(out: &mut Vec<MulticastConfig>, a: MulticastConfig)
    ensures
        final(out)@ == (if old(out)@.contains(a) {
            old(out)@
        } else {
            old(out)@.push(a)
        }),
{
    let mut i: usize = 0;
    while i < out.len()
        invariant
            i <= out@.len(),
            out@ == old(out)@,
            forall|j: int| 0 <= j < i ==> out@[j] != a,
        decreases out@.len() - i,
    {
        if out[i] == a {
            assert(out@[i as int] == a);
            return;
        }
        i = i + 1;
    }
    out.push(a);
}

/// Where each multicast group is reached, on the node's own port.
pub fn multicast_targets(bind_addr: NetAddr, multicast: &[MulticastConfig]) -> (r: Vec<NetAddr>)
    ensures
        r@ == targets_of(port_of(bind_addr), multicast@),
{
    let port = match bind_addr {
        NetAddr::V4 { port, .. } => port,
        NetAddr::V6 { port, .. } => port,
    };
    let mut out: Vec<NetAddr> = Vec::new();
    let mut i: usize = 0;
    while i < multicast.len()
        invariant
            i <= multicast@.len(),
            port == port_of(bind_addr),
            out@ == targets_of(port, multicast@.subrange(0, i as int)),
        decreases multicast@.len() - i,
    {
        let target = match multicast[i] {
            MulticastConfig::V4 { group, .. } => NetAddr::V4 { ip: group, port: port },
            MulticastConfig::V6 { group, interface } => NetAddr::V6 {
                ip: group,
                port: port,
                flowinfo: 0,
                scope_id: interface,
            },
        };
        proof {
            lemma_prefix_step(multicast@, i as int);
        }
        out.push(target);
        i = i + 1;
    }
    assert(multicast@.subrange(0, multicast@.len() as int) =~= multicast@);
    out
}

/// Every peer, then every multicast target, each once, in that order.
pub fn discovery_targets_for(bind_addr: NetAddr, peers: &[NetAddr], multicast: &[MulticastConfig]) -> (r: Vec<
    NetAddr,
>)
    ensures
        r@ == without_repeats(peers@ + targets_of(port_of(bind_addr), multicast@)),
{
    let extra = multicast_targets(bind_addr, multicast);
    let ghost all = peers@ + extra@;
    let mut targets: Vec<NetAddr> = Vec::new();
    let mut i: usize = 0;
    while i < peers.len()
        invariant
            i <= peers@.len(),
            all == peers@ + extra@,
            targets@ == without_repeats(all.subrange(0, i as int)),
        decreases peers@.len() - i,
    {
        proof {
            lemma_prefix_step(all, i as int);
        }
        push_new_addr(&mut targets, peers[i]);
        i = i + 1;
    }
    let mut k: usize = 0;
    while k < extra.len()
        invariant
            k <= extra@.len(),
            all == peers@ + extra@,
            targets@ == without_repeats(all.subrange(0, peers@.len() + k)),
        decreases extra@.len() - k,
    {
        proof {
            lemma_prefix_step(all, peers@.len() + k);
        }
        push_new_addr(&mut targets, extra[k]);
        k = k + 1;
    }
    assert(all.subrange(0, all.len() as int) =~= all);
    targets
}

/// Whether a candidate is one the selection looks at: of address `ip`
/// where one is given, of any IPv6 address where none is.
pub open spec fn candidate_wanted(c: InterfaceCandidate, ip: Option<IpValue>) -> bool {
    match ip {
        Some(a) => c.ip == a,
        None => c.ip is V6,
    }
}

/// The indices of the wanted candidates that are (or are not) loopback
/// interfaces, in order.
pub open spec fn interface_indices(c: Seq<InterfaceCandidate>, ip: Option<IpValue>, loopback: bool) -> Seq<u32>
    decreases c.len(),
{
    if c.len() == 0 {
        Seq::empty()
    } else {
        let p = interface_indices(c.drop_last(), ip, loopback);
        if candidate_wanted(c.last(), ip) && c.last().is_loopback == loopback {
            p.push(c.last().index)
        } else {
            p
        }
    }
}

/// The wanted interfaces, non-loopback ones first list, loopback ones
/// second, each index once.
fn collect_interfaces(candidates: &[InterfaceCandidate], ip: Option<IpValue>) -> (r: (Vec<u32>, Vec<u32>))
    ensures
        r.0@ == without_repeats(interface_indices(candidates@, ip, false)),
        r.1@ == without_repeats(interface_indices(candidates@, ip, true)),
{
    let mut non_loopback: Vec<u32> = Vec::new();
    let mut loopback: Vec<u32> = Vec::new();
    let mut i: usize = 0;
    while i < candidates.len()
        invariant
            i <= candidates@.len(),
            non_loopback@ == without_repeats(interface_indices(candidates@.subrange(0, i as int), ip, false)),
            loopback@ == without_repeats(interface_indices(candidates@.subrange(0, i as int), ip, true)),
        decreases candidates@.len() - i,
    {
        let c = candidates[i];
        proof {
            lemma_prefix_step(candidates@, i as int);
            lemma_without_repeats_push(interface_indices(candidates@.subrange(0, i as int), ip, false), c.index);
            lemma_without_repeats_push(interface_indices(candidates@.subrange(0, i as int), ip, true), c.index);
        }
        let wanted = match ip {
            Some(a) => c.ip == a,
            None => match c.ip {
                IpValue::V6(_) => true,
                IpValue::V4(_) => false,
            },
        };
        if wanted {
            if c.is_loopback {
                push_new_index(&mut loopback, c.index);
            } else {
                push_new_index(&mut non_loopback, c.index);
            }
        }
        i = i + 1;
    }
    assert(candidates@.subrange(0, candidates@.len() as int) =~= candidates@);
    (non_loopback, loopback)
}

/// The interfaces whose address is the bind address: the non-loopback
/// ones where there are any, else the loopback ones; each index once.
pub fn select_multicast_interfaces_for_bind_ip(bind_ip: IpValue, candidates: &[InterfaceCandidate]) -> (r: Vec<u32>)
    ensures
        r@ == (if without_repeats(interface_indices(candidates@, Some(bind_ip), false)).len() > 0 {
            without_repeats(interface_indices(candidates@, Some(bind_ip), false))
        } else {
            without_repeats(interface_indices(candidates@, Some(bind_ip), true))
        }),
{
    let (non_loopback, loopback) = collect_interfaces(candidates, Some(bind_ip));
    if non_loopback.len() > 0 {
        non_loopback
    } else {
        loopback
    }
}

/// The interfaces to join the group on for a node bound to `bind_addr`:
/// none to choose where the bind address is unspecified or no interface
/// has it, else those that `select_multicast_interfaces_for_bind_ip` picks.
pub fn multicast_interfaces_for_bind_addr(bind_addr: NetAddr, candidates: &[InterfaceCandidate]) -> (r: Option<
    Vec<u32>,
>)
    ensures
        (match bind_addr {
            NetAddr::V4 { ip, .. } => ip == 0,
            NetAddr::V6 { ip, .. } => ip == 0,
        }) ==> r is None,
        (match bind_addr {
            NetAddr::V4 { ip, .. } => ip != 0,
            NetAddr::V6 { ip, .. } => ip != 0,
        }) ==> ({
            let nl = without_repeats(interface_indices(candidates@, Some(ip_of(bind_addr)), false));
            let lb = without_repeats(interface_indices(candidates@, Some(ip_of(bind_addr)), true));
            let chosen = if nl.len() > 0 {
                nl
            } else {
                lb
            };
            if chosen.len() == 0 {
                r is None
            } else {
                r matches Some(v) && v@ == chosen
            }
        }),
{
    let bind_ip = match bind_addr {
        NetAddr::V4 { ip, .. } => {
            if ip == 0 {
                return None;
            }
            IpValue::V4(ip)
        },
        NetAddr::V6 { ip, .. } => {
            if ip == 0 {
                return None;
            }
            IpValue::V6(ip)
        },
    };
    let preferred = select_multicast_interfaces_for_bind_ip(bind_ip, candidates);
    if preferred.len() == 0 {
        None
    } else {
        Some(preferred)
    }
}

/// The host's IPv6 multicast interfaces: the non-loopback ones where there
/// are any, else the loopback ones, each index once; refused where there
/// are none.
pub fn select_ipv6_multicast_interfaces(candidates: &[InterfaceCandidate]) -> (r: Result<Vec<u32>, String>)
    ensures
        ({
            let nl = without_repeats(interface_indices(candidates@, None, false));
            let lb = without_repeats(interface_indices(candidates@, None, true));
            if nl.len() > 0 {
                r matches Ok(v) && v@ == nl
            } else if lb.len() > 0 {
                r matches Ok(v) && v@ == lb
            } else {
                r matches Err(m) && m@ == "no IPv6 multicast-capable interfaces found"@
            }
        }),
{
    let (non_loopback, loopback) = collect_interfaces(candidates, None);
    if non_loopback.len() > 0 {
        Ok(non_loopback)
    } else if loopback.len() > 0 {
        Ok(loopback)
    } else {
        Err(String::from_str("no IPv6 multicast-capable interfaces found"))
    }
}

/// The interface that an IPv6 bind address names by its scope, if any.
pub fn scope_interface(bind_addr: NetAddr) -> (r: Option<u32>)
    ensures
        r == (match bind_addr {
            NetAddr::V6 { scope_id, .. } => if scope_id != 0 {
                Some(scope_id)
            } else {
                None
            },
            NetAddr::V4 { .. } => None::<u32>,
        }),
{
    match bind_addr {
        NetAddr::V6 { scope_id, .. } => if scope_id != 0 {
            Some(scope_id)
        } else {
            None
        },
        NetAddr::V4 { .. } => None,
    }
}

pub open spec fn group_configs(group: u128, interfaces: Seq<u32>) -> Seq<MulticastConfig>
    decreases interfaces.len(),
{
    if interfaces.len() == 0 {
        Seq::empty()
    } else {
        group_configs(group, interfaces.drop_last()).push(
            MulticastConfig::V6 { group: group, interface: interfaces.last() },
        )
    }
}

/// The IPv6 group joined on each interface, each pair once.
pub fn multicast_configs(group: u128, interfaces: &[u32]) -> (r: Vec<MulticastConfig>)
    ensures
        r@ == without_repeats(group_configs(group, interfaces@)),
{
    let mut out: Vec<MulticastConfig> = Vec::new();
    let mut i: usize = 0;
    while i < interfaces.len()
        invariant
            i <= interfaces@.len(),
            out@ == without_repeats(group_configs(group, interfaces@.subrange(0, i as int))),
        decreases interfaces@.len() - i,
    {
        proof {
            lemma_prefix_step(interfaces@, i as int);
            lemma_without_repeats_push(
                group_configs(group, interfaces@.subrange(0, i as int)),
                MulticastConfig::V6 { group: group, interface: interfaces@[i as int] },
            );
        }
        push_new_config(&mut out, MulticastConfig::V6 { group: group, interface: interfaces[i] });
        i = i + 1;
    }
    assert(interfaces@.subrange(0, interfaces@.len() as int) =~= interfaces@);
    out
}

pub open spec fn other_than(s: Seq<NetAddr>, me: NetAddr) -> Seq<NetAddr>
    decreases s.len(),
{
    if s.len() == 0 {
        Seq::empty()
    } else if s.last() == me {
        other_than(s.drop_last(), me)
    } else {
        other_than(s.drop_last(), me).push(s.last())
    }
}

/// The resolved peers other than the node itself, each once, in order.
pub fn distinct_peers(resolved: &[NetAddr], self_bind_addr: NetAddr) -> (r: Vec<NetAddr>)
    ensures
        r@ == without_repeats(other_than(resolved@, self_bind_addr)),
{
    let mut out: Vec<NetAddr> = Vec::new();
    let mut i: usize = 0;
    while i < resolved.len()
        invariant
            i <= resolved@.len(),
            out@ == without_repeats(other_than(resolved@.subrange(0, i as int), self_bind_addr)),
        decreases resolved@.len() - i,
    {
        proof {
            lemma_prefix_step(resolved@, i as int);
            lemma_without_repeats_push(other_than(resolved@.subrange(0, i as int), self_bind_addr), resolved@[i as int]);
        }
        if resolved[i] != self_bind_addr {
            push_new_addr(&mut out, resolved[i]);
        }
        i = i + 1;
    }
    assert(resolved@.subrange(0, resolved@.len() as int) =~= resolved@);
    out
}

/// Whether the node needs a second socket of the other IP family, and if
/// so, its unspecified address on the node's port: where the bind address,
/// the peers and the groups mix IPv4 and IPv6.
pub fn extra_bind_addr(bind_addr: NetAddr, peers: &[NetAddr], multicast: &[MulticastConfig]) -> (r: Option<NetAddr>)
    ensures
        ({
            let need_v4 = bind_addr is V4 || (exists|i: int| 0 <= i < peers@.len() && (#[trigger] peers@[i]) is V4)
                || (exists|i: int| 0 <= i < multicast@.len() && (#[trigger] multicast@[i]) is V4);
            let need_v6 = bind_addr is V6 || (exists|i: int| 0 <= i < peers@.len() && (#[trigger] peers@[i]) is V6)
                || (exists|i: int| 0 <= i < multicast@.len() && (#[trigger] multicast@[i]) is V6);
            if need_v4 && need_v6 {
                r == Some(
                    if bind_addr is V4 {
                        NetAddr::V6 { ip: 0, port: port_of(bind_addr), flowinfo: 0, scope_id: 0 }
                    } else {
                        NetAddr::V4 { ip: 0, port: port_of(bind_addr) }
                    },
                )
            } else {
                r is None
            }
        }),
{
    let (mut v4, mut v6, port) = match bind_addr {
        NetAddr::V4 { port, .. } => (true, false, port),
        NetAddr::V6 { port, .. } => (false, true, port),
    };
    let ghost bind_v4 = v4;
    let ghost bind_v6 = v6;
    let mut i: usize = 0;
    while i < peers.len()
        invariant
            i <= peers@.len(),
            v4 == (bind_v4 || exists|j: int| 0 <= j < i && (#[trigger] peers@[j]) is V4),
            v6 == (bind_v6 || exists|j: int| 0 <= j < i && (#[trigger] peers@[j]) is V6),
        decreases peers@.len() - i,
    {
        match peers[i] {
            NetAddr::V4 { .. } => {
                v4 = true;
            },
            NetAddr::V6 { .. } => {
                v6 = true;
            },
        }
        i = i + 1;
    }
    let ghost peer_v4 = v4;
    let ghost peer_v6 = v6;
    let mut k: usize = 0;
    while k < multicast.len()
        invariant
            k <= multicast@.len(),
            v4 == (peer_v4 || exists|j: int| 0 <= j < k && (#[trigger] multicast@[j]) is V4),
            v6 == (peer_v6 || exists|j: int| 0 <= j < k && (#[trigger] multicast@[j]) is V6),
        decreases multicast@.len() - k,
    {
        match multicast[k] {
            MulticastConfig::V4 { .. } => {
                v4 = true;
            },
            MulticastConfig::V6 { .. } => {
                v6 = true;
            },
        }
        k = k + 1;
    }
    if v4 && v6 {
        match bind_addr {
            NetAddr::V4 { .. } => Some(NetAddr::V6 { ip: 0, port: port, flowinfo: 0, scope_id: 0 }),
            NetAddr::V6 { .. } => Some(NetAddr::V4 { ip: 0, port: port }),
        }
    } else {
        None
    }
}

/// Whether a configuration flag is on: its trimmed value is `1`, `true`,
/// `yes` or `on`, in any ASCII case.
pub open spec fn flag_on(value: Option<Seq<char>>) -> bool {
    match value {
        Some(v) => {
            let t = trim(v);
            eq_ignore_ascii_case(t, "1"@) || eq_ignore_ascii_case(t, "true"@) || eq_ignore_ascii_case(
                t,
                "yes"@,
            ) || eq_ignore_ascii_case(t, "on"@)
        },
        None => false,
    }
}

/// Whether a configuration flag is on.
pub fn env_flag(value: Option<&str>) -> (r: bool)
    ensures
        r == flag_on(opt_str_view(value)),
{
    match value {
        Some(v) => {
            let t = trim_piece(&String::from_str(v));
            let s = t.as_str();
            equal_ignoring_ascii_case(s, "1") || equal_ignoring_ascii_case(s, "true")
                || equal_ignoring_ascii_case(s, "yes") || equal_ignoring_ascii_case(s, "on")
        },
        None => false,
    }
}

/// Whether `needle` occurs in `haystack` at `i`.
pub open spec fn occurs_at(haystack: Seq<char>, needle: Seq<char>, i: int) -> bool {
    0 <= i && i + needle.len() <= haystack.len() && haystack.subrange(i, i + needle.len()) == needle
}

/// Whether `needle` occurs in `haystack`.
pub open spec fn occurs_in(haystack: Seq<char>, needle: Seq<char>) -> bool {
    exists|i: int| occurs_at(haystack, needle, i)
}

fn text_contains(haystack: &str, needle: &str) -> (r: bool)
    ensures
        r == occurs_in(haystack@, needle@),
{
    let h = chars_of(haystack);
    let n = chars_of(needle);
    if n.len() > h.len() {
        assert forall|i: int| !occurs_at(haystack@, needle@, i) by {}
        return false;
    }
    let hlen = h.len();
    let last = hlen - n.len();
    let mut i: usize = 0;
    loop
        invariant
            hlen == h@.len(),
            h@ == haystack@,
            n@ == needle@,
            last == h@.len() - n@.len(),
            i <= last,
            forall|k: int| 0 <= k < i ==> !occurs_at(haystack@, needle@, k),
        decreases last - i,
    {
        let mut j: usize = 0;
        let mut same = true;
        while j < n.len() && same
            invariant
                hlen == h@.len(),
                h@ == haystack@,
                n@ == needle@,
                i <= last,
                last == h@.len() - n@.len(),
                j <= n@.len(),
                same ==> forall|m: int| 0 <= m < j ==> h@[i + m] == n@[m],
                !same ==> j > 0 && h@[i + j - 1] != n@[j - 1],
            decreases n@.len() - j + (if same { 1int } else { 0int }),
        {
            assert(i + j < h@.len());
            if h[i + j] != n[j] {
                same = false;
            }
            j = j + 1;
        }
        if same {
            assert(h@.subrange(i as int, i + n@.len()) =~= n@);
            assert(occurs_at(haystack@, needle@, i as int));
            return true;
        }
        assert(!occurs_at(haystack@, needle@, i as int)) by {
            if occurs_at(haystack@, needle@, i as int) {
                assert(h@.subrange(i as int, i + n@.len())[j - 1] == n@[j - 1]);
            }
        }
        if i == last {
            assert forall|k: int| !occurs_at(haystack@, needle@, k) by {
                if occurs_at(haystack@, needle@, k) {
                    assert(k <= i);
                }
            }
            return false;
        }
        i = i + 1;
    }
}

/// Whether a failed discovery send is expected and not worth reporting:
/// one to a multicast target that the host cannot route.
pub fn should_ignore_bootstrap_send_error(target: NetAddr, err: &str) -> (r: bool)
    ensures
        r == (is_multicast(ip_of(target)) && (occurs_in(err@, "No route to host"@) || occurs_in(
            err@,
            "Network is unreachable"@,
        ) || occurs_in(err@, "Host is unreachable"@))),
{
    let multicast = match target {
        NetAddr::V4 { ip, .. } => 0xe000_0000u32 <= ip && ip <= 0xefff_ffffu32,
        NetAddr::V6 { ip, .. } => 0xff00_0000_0000_0000_0000_0000_0000_0000u128 <= ip,
    };
    multicast && (text_contains(err, "No route to host") || text_contains(err, "Network is unreachable")
        || text_contains(err, "Host is unreachable"))
}

} // verus!

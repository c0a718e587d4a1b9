use smolnet::iface::groups::GroupState;
use smolnet::iface::model::{Delivery, EgressPhase, IgmpReportState, MldReportState};
use smolnet::iface::multicast::{Device, Interface, MulticastError, Packet, State};
use smolnet::rand::Rand;
use smolnet::time::{Duration, Instant};
use smolnet::wire::igmp::{max_resp_code_to_duration, IgmpRepr, IgmpVersion};
use smolnet::wire::ip::{IpAddress, IpCidr, IpProtocol, Ipv4Address, Ipv4Repr, Ipv6Address, Ipv6Repr};
use smolnet::wire::mld::{
    mldv2_max_resp_delay, MldAddressRecordRepr, MldRecordType, MldRepr,
};

fn group_a() -> Ipv6Address {
    Ipv6Address::new(0xff02, 0, 0, 0, 0, 0, 0, 0x1234)
}

fn group_b() -> Ipv6Address {
    Ipv6Address::new(0xff02, 0, 0, 0, 0, 0, 0, 0x5678)
}

fn cidr(address: IpAddress, prefix_len: u8) -> IpCidr {
    IpCidr { address, prefix_len }
}

/// An interface with addresses of both families, its solicited-node groups joined.
fn setup() -> Interface {
    let mut iface = Interface::new(
        Instant::from_millis(0),
        0,
        vec![
            cidr(Ipv4Address::new(192, 168, 1, 1).into(), 24),
            cidr(Ipv4Address::new(127, 0, 0, 1).into(), 8),
            cidr(Ipv6Address::new(0xfe80, 0, 0, 0, 0, 0, 0, 1).into(), 64),
            cidr(Ipv6Address::new(0, 0, 0, 0, 0, 0, 0, 1).into(), 128),
            cidr(Ipv6Address::new(0xfdbe, 0, 0, 0, 0, 0, 0, 1).into(), 64),
        ],
    );
    iface.update_solicited_node_groups();
    iface
}

struct TxUnavailable {
    transmit_calls: usize,
}

impl Device for TxUnavailable {
    fn transmit(&mut self, _timestamp: Instant, _packet: Packet) -> bool {
        self.transmit_calls += 1;
        false
    }
}

struct TxQueue {
    packets: Vec<Packet>,
    room: usize,
}

impl TxQueue {
    fn new() -> Self {
        TxQueue { packets: Vec::new(), room: usize::MAX }
    }
}

impl Device for TxQueue {
    fn transmit(&mut self, _timestamp: Instant, packet: Packet) -> bool {
        if self.packets.len() >= self.room {
            return false;
        }
        self.packets.push(packet);
        true
    }
}

fn assert_general(state: &State, timeout: Instant) {
    assert!(matches!(
        state.mld_report_state,
        MldReportState::ToGeneralQuery { timeout: actual } if actual == timeout
    ));
}

fn assert_specific(state: &State, group: Ipv6Address, timeout: Instant) {
    assert!(matches!(
        state.mld_report_state,
        MldReportState::ToSpecificQuery {
            group: actual_group,
            timeout: actual_timeout,
        } if actual_group == group && actual_timeout == timeout
    ));
}

fn ipv6_to(dst_addr: Ipv6Address) -> Ipv6Repr {
    Ipv6Repr {
        src_addr: Ipv6Address::new(0xfe80, 0, 0, 0, 0, 0, 0, 2),
        dst_addr,
        next_header: IpProtocol::Icmpv6,
        payload_len: 28,
        hop_limit: 1,
    }
}

fn ipv4_to(dst_addr: Ipv4Address) -> Ipv4Repr {
    Ipv4Repr {
        src_addr: Ipv4Address::new(192, 168, 1, 254),
        dst_addr,
        next_header: IpProtocol::Igmp,
        payload_len: 8,
        hop_limit: 1,
    }
}

fn all_nodes() -> Ipv6Address {
    Ipv6Address::new(0xff02, 0, 0, 0, 0, 0, 0, 1)
}

fn scheduled_delay(max_resp_code: u16) -> u64 {
    let mut iface = setup();
    let now = Instant::from_millis(10);
    iface.inner.now = now;

    let repr = MldRepr::Query {
        max_resp_code,
        mcast_addr: Ipv6Address::new(0, 0, 0, 0, 0, 0, 0, 0),
    };
    iface.inner.rand = Rand::new(1);
    iface.inner.process_mldv2(ipv6_to(all_nodes()), repr);

    match iface.inner.multicast.mld_report_state {
        MldReportState::ToGeneralQuery { timeout } => timeout.since(now).total_millis(),
        _ => panic!("MLD report was not scheduled"),
    }
}

#[test]
fn mld_query_delay_uses_decoded_range() {
    assert_eq!(scheduled_delay(0xffff), 8_282_290);
    assert_eq!(scheduled_delay(1), 1);
    assert_eq!(scheduled_delay(0), 0);
}

#[test]
fn mld_report_schedule_merges_pending_queries() {
    let earlier = Instant::from_millis(10);
    let later = Instant::from_millis(20);

    let mut state = State::new();
    state.schedule_mld_report(Some(group_a()), later);
    state.schedule_mld_report(Some(group_a()), earlier);
    assert_specific(&state, group_a(), earlier);

    let mut state = State::new();
    state.schedule_mld_report(Some(group_a()), later);
    state.schedule_mld_report(None, earlier);
    assert_general(&state, earlier);
    state.schedule_mld_report(Some(group_a()), later);
    assert_general(&state, earlier);

    let mut state = State::new();
    state.schedule_mld_report(Some(group_a()), later);
    state.schedule_mld_report(Some(group_b()), earlier);
    assert_general(&state, earlier);
}

#[test]
fn multicast_poll_at_includes_state_work() {
    let mld_timeout = Instant::from_millis(20);
    let mut state = State::new();
    state
        .groups
        .insert(group_a().into(), GroupState::Joined)
        .unwrap();
    assert_eq!(state.poll_at(), None);

    state.mld_report_state = MldReportState::ToGeneralQuery {
        timeout: mld_timeout,
    };
    assert_eq!(state.poll_at(), Some(mld_timeout));

    let igmp_timeout = Instant::from_millis(10);
    state.igmp_report_state = IgmpReportState::ToSpecificQuery {
        version: IgmpVersion::Version2,
        timeout: igmp_timeout,
        group: Ipv4Address::new(224, 0, 0, 1),
    };
    assert_eq!(state.poll_at(), Some(igmp_timeout));

    state
        .groups
        .insert(group_a().into(), GroupState::Joining)
        .unwrap();
    assert_eq!(state.poll_at(), Some(Instant::from_millis(0)));
    state
        .groups
        .insert(group_a().into(), GroupState::Leaving)
        .unwrap();
    assert_eq!(state.poll_at(), Some(Instant::from_millis(0)));
}

#[test]
fn mld_due_report_survives_tx_unavailable() {
    let mut iface = setup();
    let now = Instant::from_millis(10);
    iface.inner.now = now;
    iface.inner.multicast.groups.clear();
    iface
        .inner
        .multicast
        .groups
        .insert(group_a().into(), GroupState::Joined)
        .unwrap();
    iface.inner.multicast.mld_report_state = MldReportState::ToSpecificQuery {
        group: group_a(),
        timeout: now,
    };

    let mut unavailable = TxUnavailable { transmit_calls: 0 };
    iface.multicast_egress(&mut unavailable);
    assert_eq!(unavailable.transmit_calls, 1);
    assert_specific(&iface.inner.multicast, group_a(), now);
    assert_eq!(iface.inner.multicast.poll_at(), Some(now));

    let mut device = TxQueue::new();
    iface.multicast_egress(&mut device);
    assert_eq!(device.packets.len(), 1);
    assert!(matches!(
        iface.inner.multicast.mld_report_state,
        MldReportState::Inactive
    ));
    iface.multicast_egress(&mut device);
    assert_eq!(device.packets.len(), 1);
}

#[test]
fn mld_stale_reports_clear_without_transmit() {
    let mut iface = setup();
    let now = Instant::from_millis(10);
    iface.inner.now = now;
    iface.inner.multicast.groups.clear();

    iface.inner.multicast.mld_report_state = MldReportState::ToSpecificQuery {
        group: group_a(),
        timeout: now,
    };
    let mut unavailable = TxUnavailable { transmit_calls: 0 };
    iface.multicast_egress(&mut unavailable);
    assert_eq!(unavailable.transmit_calls, 0);
    assert!(matches!(
        iface.inner.multicast.mld_report_state,
        MldReportState::Inactive
    ));

    iface.inner.multicast.mld_report_state = MldReportState::ToGeneralQuery { timeout: now };
    iface.multicast_egress(&mut unavailable);
    assert_eq!(unavailable.transmit_calls, 0);
    assert!(matches!(
        iface.inner.multicast.mld_report_state,
        MldReportState::Inactive
    ));
}

#[test]
fn join_and_leave_reject_unicast_addresses() {
    let mut iface = setup();
    let unicast = IpAddress::Ipv4(Ipv4Address::new(10, 0, 0, 1));
    assert_eq!(iface.join_multicast_group(unicast), Err(MulticastError::Unaddressable));
    assert_eq!(iface.leave_multicast_group(unicast), Err(MulticastError::Unaddressable));
    assert_eq!(MulticastError::Unaddressable.name(), "Unaddressable");
    assert_eq!(MulticastError::GroupTableFull.name(), "GroupTableFull");
}

#[test]
fn join_fills_the_table_and_leave_makes_room() {
    let mut iface = Interface::new(Instant::from_millis(0), 0, Vec::new());
    for last in 1..=4 {
        let group = IpAddress::Ipv4(Ipv4Address::new(239, 0, 0, last));
        assert_eq!(iface.join_multicast_group(group), Ok(()));
        assert!(iface.has_multicast_group(group));
    }
    let fifth = IpAddress::Ipv4(Ipv4Address::new(239, 0, 0, 5));
    assert_eq!(iface.join_multicast_group(fifth), Err(MulticastError::GroupTableFull));
    assert!(!iface.has_multicast_group(fifth));
    // Joining a member again is no new entry.
    let first = IpAddress::Ipv4(Ipv4Address::new(239, 0, 0, 1));
    assert_eq!(iface.join_multicast_group(first), Ok(()));
    // A join that was not sent is undone at once.
    assert_eq!(iface.leave_multicast_group(first), Ok(()));
    assert!(!iface.has_multicast_group(first));
    assert_eq!(iface.join_multicast_group(fifth), Ok(()));
    assert!(iface.has_multicast_group(fifth));
}

#[test]
fn rejoin_cancels_a_leave_without_packets() {
    let mut iface = setup();
    let group = IpAddress::Ipv6(group_a());
    iface.join_multicast_group(group).unwrap();
    let mut device = TxQueue::new();
    iface.multicast_egress(&mut device);
    let sent = device.packets.len();

    iface.leave_multicast_group(group).unwrap();
    assert!(!iface.has_multicast_group(group));
    assert_eq!(iface.inner.multicast.poll_at(), Some(Instant::from_millis(0)));
    iface.join_multicast_group(group).unwrap();
    assert!(iface.has_multicast_group(group));
    assert_eq!(iface.inner.multicast.poll_at(), None);
    iface.multicast_egress(&mut device);
    assert_eq!(device.packets.len(), sent);
}

#[test]
fn egress_sends_joins_in_table_order_then_leaves() {
    let mut iface = Interface::new(
        Instant::from_millis(0),
        0,
        vec![cidr(Ipv4Address::new(192, 168, 1, 1).into(), 24)],
    );
    let v4 = Ipv4Address::new(239, 0, 0, 7);
    iface.join_multicast_group(v4.into()).unwrap();
    iface.join_multicast_group(group_a().into()).unwrap();
    let mut device = TxQueue::new();
    iface.multicast_egress(&mut device);
    assert_eq!(device.packets.len(), 2);
    match &device.packets[0] {
        Packet::Igmp(ip, igmp) => {
            assert_eq!(ip.src_addr, Ipv4Address::new(192, 168, 1, 1));
            assert_eq!(ip.dst_addr, v4);
            assert_eq!(ip.next_header, IpProtocol::Igmp);
            assert_eq!(ip.payload_len, 8);
            assert_eq!(ip.hop_limit, 1);
            assert_eq!(
                *igmp,
                IgmpRepr::MembershipReport { group_addr: v4, version: IgmpVersion::Version2 }
            );
        }
        Packet::Mldv2Report(_) => panic!("expected an IGMP report"),
    }
    match &device.packets[1] {
        Packet::Mldv2Report(records) => assert_eq!(
            *records,
            vec![MldAddressRecordRepr::new(MldRecordType::ChangeToInclude, group_a())]
        ),
        Packet::Igmp(_, _) => panic!("expected an MLD report"),
    }
    assert_eq!(iface.inner.multicast.poll_at(), None);

    iface.leave_multicast_group(v4.into()).unwrap();
    iface.leave_multicast_group(group_a().into()).unwrap();
    iface.multicast_egress(&mut device);
    assert_eq!(device.packets.len(), 4);
    match &device.packets[2] {
        Packet::Igmp(ip, igmp) => {
            assert_eq!(ip.dst_addr, Ipv4Address::new(224, 0, 0, 2));
            assert_eq!(*igmp, IgmpRepr::LeaveGroup { group_addr: v4 });
        }
        Packet::Mldv2Report(_) => panic!("expected an IGMP leave"),
    }
    match &device.packets[3] {
        Packet::Mldv2Report(records) => assert_eq!(
            *records,
            vec![MldAddressRecordRepr::new(MldRecordType::ChangeToExclude, group_a())]
        ),
        Packet::Igmp(_, _) => panic!("expected an MLD report"),
    }
    assert!(iface.inner.multicast.groups.is_empty());
}

#[test]
fn egress_joins_silently_without_an_ipv4_address() {
    let mut iface = Interface::new(Instant::from_millis(0), 0, Vec::new());
    let v4 = Ipv4Address::new(239, 0, 0, 7);
    iface.join_multicast_group(v4.into()).unwrap();
    let mut unavailable = TxUnavailable { transmit_calls: 0 };
    iface.multicast_egress(&mut unavailable);
    assert_eq!(unavailable.transmit_calls, 0);
    assert_eq!(iface.inner.multicast.groups.get(&v4.into()), Some(&GroupState::Joined));
}

#[test]
fn refused_joins_wait_while_the_other_phases_still_ask() {
    let mut iface = setup();
    iface.inner.now = Instant::from_millis(10);
    iface.join_multicast_group(group_a().into()).unwrap();
    iface.inner.multicast.mld_report_state =
        MldReportState::ToGeneralQuery { timeout: Instant::from_millis(5) };
    let mut unavailable = TxUnavailable { transmit_calls: 0 };
    iface.multicast_egress(&mut unavailable);
    // One join and one report were asked for.
    assert_eq!(unavailable.transmit_calls, 2);
    assert!(iface.has_multicast_group(group_a().into()));
    assert_eq!(iface.inner.multicast.poll_at(), Some(Instant::from_millis(0)));

    let mut one = TxQueue { packets: Vec::new(), room: 1 };
    iface.multicast_egress(&mut one);
    assert_eq!(one.packets.len(), 1);
    assert_general(&iface.inner.multicast, Instant::from_millis(5));
}

#[test]
fn egress_steps_can_be_driven_by_hand() {
    let mut iface = Interface::new(Instant::from_millis(0), 0, Vec::new());
    iface.join_multicast_group(group_a().into()).unwrap();
    assert!(iface.egress_request(EgressPhase::Join).is_some());
    assert_eq!(iface.egress_advance(EgressPhase::Join, Delivery::Refused), EgressPhase::Leave);
    assert_eq!(iface.egress_advance(EgressPhase::Join, Delivery::Sent), EgressPhase::Join);
    assert!(iface.egress_request(EgressPhase::Join).is_none());
    assert_eq!(iface.egress_advance(EgressPhase::Join, Delivery::Nothing), EgressPhase::Leave);
    assert_eq!(
        iface.egress_advance(EgressPhase::Leave, Delivery::Nothing),
        EgressPhase::IgmpReport
    );
    assert_eq!(
        iface.egress_advance(EgressPhase::IgmpReport, Delivery::Nothing),
        EgressPhase::MldReport
    );
    assert_eq!(
        iface.egress_advance(EgressPhase::MldReport, Delivery::Nothing),
        EgressPhase::Done
    );
    assert!(iface.egress_request(EgressPhase::Done).is_none());
    assert_eq!(iface.egress_advance(EgressPhase::Done, Delivery::Nothing), EgressPhase::Done);
}

fn igmp_query(code: u8, group: Ipv4Address) -> Vec<u8> {
    let mut message = vec![0x11, code, 0, 0];
    message.extend_from_slice(&group.bits.to_be_bytes());
    message
}

#[test]
fn igmp_general_query_spreads_reports_over_the_groups() {
    let mut iface = setup();
    iface.inner.multicast.groups.clear();
    let first = Ipv4Address::new(239, 0, 0, 1);
    let second = Ipv4Address::new(239, 0, 0, 2);
    iface.inner.multicast.groups.insert(first.into(), GroupState::Joined).unwrap();
    iface.inner.multicast.groups.insert(group_a().into(), GroupState::Joined).unwrap();
    iface.inner.multicast.groups.insert(second.into(), GroupState::Joined).unwrap();

    let now = Instant::from_millis(1000);
    iface.inner.now = now;
    let all_systems = Ipv4Address::new(224, 0, 0, 1);
    let query = igmp_query(30, Ipv4Address::new(0, 0, 0, 0));
    assert!(iface.inner.process_igmp(ipv4_to(all_systems), &query).is_none());
    // Three seconds, two groups: a report each second.
    assert_eq!(
        iface.inner.multicast.igmp_report_state,
        IgmpReportState::ToGeneralQuery {
            version: IgmpVersion::Version2,
            timeout: Instant::from_millis(2000),
            interval: Duration::from_millis(1000),
            next_index: 0,
        }
    );

    let mut device = TxQueue::new();
    iface.multicast_egress(&mut device);
    assert_eq!(device.packets.len(), 0);

    let mut reported = Vec::new();
    for millis in [2000, 3500, 4500] {
        iface.inner.now = Instant::from_millis(millis);
        iface.multicast_egress(&mut device);
        for packet in device.packets.drain(..) {
            match packet {
                Packet::Igmp(ip, _) => reported.push((millis, ip.dst_addr)),
                Packet::Mldv2Report(_) => panic!("expected an IGMP report"),
            }
        }
    }
    assert_eq!(reported, vec![(2000, first), (3500, second)]);
    assert_eq!(iface.inner.multicast.igmp_report_state, IgmpReportState::Inactive);
}

#[test]
fn igmp_version_1_query_reports_after_a_tenth_of_a_second() {
    let mut iface = setup();
    iface.inner.multicast.groups.clear();
    let group = Ipv4Address::new(239, 0, 0, 1);
    iface.inner.multicast.groups.insert(group.into(), GroupState::Joined).unwrap();
    let query = igmp_query(0, Ipv4Address::new(0, 0, 0, 0));
    iface.inner.process_igmp(ipv4_to(Ipv4Address::new(224, 0, 0, 1)), &query);
    assert_eq!(
        iface.inner.multicast.igmp_report_state,
        IgmpReportState::ToGeneralQuery {
            version: IgmpVersion::Version1,
            timeout: Instant::from_millis(100),
            interval: Duration::from_millis(100),
            next_index: 0,
        }
    );
}

#[test]
fn igmp_specific_query_reports_one_group() {
    let mut iface = setup();
    iface.inner.multicast.groups.clear();
    let group = Ipv4Address::new(239, 0, 0, 1);
    let other = Ipv4Address::new(239, 0, 0, 2);
    iface.inner.multicast.groups.insert(group.into(), GroupState::Joined).unwrap();

    // A query for a group that is not listened to, or sent elsewhere, is ignored.
    iface.inner.process_igmp(ipv4_to(other), &igmp_query(40, other));
    iface.inner.process_igmp(ipv4_to(other), &igmp_query(40, group));
    assert_eq!(iface.inner.multicast.igmp_report_state, IgmpReportState::Inactive);

    iface.inner.process_igmp(ipv4_to(group), &igmp_query(40, group));
    assert_eq!(
        iface.inner.multicast.igmp_report_state,
        IgmpReportState::ToSpecificQuery {
            version: IgmpVersion::Version2,
            timeout: Instant::from_millis(1000),
            group,
        }
    );
    iface.inner.now = Instant::from_millis(1000);
    let mut unavailable = TxUnavailable { transmit_calls: 0 };
    iface.multicast_egress(&mut unavailable);
    assert_eq!(unavailable.transmit_calls, 1);
    assert_ne!(iface.inner.multicast.igmp_report_state, IgmpReportState::Inactive);
    let mut device = TxQueue::new();
    iface.multicast_egress(&mut device);
    assert_eq!(device.packets.len(), 1);
    assert_eq!(iface.inner.multicast.igmp_report_state, IgmpReportState::Inactive);
}

#[test]
fn igmp_without_groups_or_with_other_messages_changes_nothing() {
    let mut iface = setup();
    let all_systems = Ipv4Address::new(224, 0, 0, 1);
    let none = Ipv4Address::new(0, 0, 0, 0);
    iface.inner.process_igmp(ipv4_to(all_systems), &igmp_query(30, none));
    iface.inner.process_igmp(ipv4_to(all_systems), &[0x16, 0, 0, 0, 239, 0, 0, 1]);
    iface.inner.process_igmp(ipv4_to(all_systems), &[0x11, 30, 0, 0]);
    assert_eq!(iface.inner.multicast.igmp_report_state, IgmpReportState::Inactive);
}

#[test]
fn igmp_messages_parse() {
    let group = Ipv4Address::new(239, 1, 2, 3);
    let message = |kind: u8, code: u8| {
        let mut bytes = igmp_query(code, group);
        bytes[0] = kind;
        IgmpRepr::parse(&bytes)
    };
    assert_eq!(
        message(0x11, 100),
        Some(IgmpRepr::MembershipQuery {
            max_resp_time: Duration::from_millis(10_000),
            group_addr: group,
            version: IgmpVersion::Version2,
        })
    );
    assert_eq!(
        message(0x12, 0),
        Some(IgmpRepr::MembershipReport { group_addr: group, version: IgmpVersion::Version1 })
    );
    assert_eq!(
        message(0x16, 0),
        Some(IgmpRepr::MembershipReport { group_addr: group, version: IgmpVersion::Version2 })
    );
    assert_eq!(message(0x17, 0), Some(IgmpRepr::LeaveGroup { group_addr: group }));
    assert_eq!(message(0x22, 0), None);
    // The group must be unspecified or multicast.
    assert_eq!(IgmpRepr::parse(&igmp_query(1, Ipv4Address::new(10, 0, 0, 1))), None);
    assert_eq!(IgmpRepr::parse(&[0x11; 7]), None);
}

#[test]
fn response_codes_decode() {
    assert_eq!(max_resp_code_to_duration(0), Duration::from_millis(0));
    assert_eq!(max_resp_code_to_duration(127), Duration::from_millis(12_700));
    assert_eq!(max_resp_code_to_duration(128), Duration::from_millis(12_800));
    assert_eq!(max_resp_code_to_duration(255), Duration::from_millis(3_174_400));
    assert_eq!(mldv2_max_resp_delay(0x7fff).total_millis(), 32_767);
    assert_eq!(mldv2_max_resp_delay(0x8000).total_millis(), 32_768);
    assert_eq!(mldv2_max_resp_delay(0xffff).total_millis(), 8_387_584);
}

#[test]
fn mld_queries_are_answered_only_where_they_are_addressed() {
    let mut iface = setup();
    iface.inner.multicast.groups.clear();
    iface.inner.multicast.groups.insert(group_a().into(), GroupState::Joined).unwrap();
    let general = MldRepr::Query {
        max_resp_code: 0,
        mcast_addr: Ipv6Address::new(0, 0, 0, 0, 0, 0, 0, 0),
    };
    let specific = MldRepr::Query { max_resp_code: 0, mcast_addr: group_a() };
    let elsewhere = Ipv6Address::new(0xfe80, 0, 0, 0, 0, 0, 0, 9);
    let own = Ipv6Address::new(0xfe80, 0, 0, 0, 0, 0, 0, 1);

    iface.inner.process_mldv2(ipv6_to(elsewhere), general);
    iface.inner.process_mldv2(ipv6_to(all_nodes()), specific);
    iface.inner.process_mldv2(ipv6_to(all_nodes()), MldRepr::Report { nr_mcast_addr_rcrds: 1 });
    assert_eq!(iface.inner.multicast.mld_report_state, MldReportState::Inactive);

    iface.inner.process_mldv2(ipv6_to(group_a()), specific);
    assert_specific(&iface.inner.multicast, group_a(), Instant::from_millis(0));
    iface.inner.process_mldv2(ipv6_to(own), general);
    assert_general(&iface.inner.multicast, Instant::from_millis(0));

    // The report names the groups that are listened to, not one that is being left.
    iface.inner.multicast.groups.insert(group_b().into(), GroupState::Joined).unwrap();
    iface.leave_multicast_group(group_b().into()).unwrap();
    let mut device = TxQueue::new();
    iface.multicast_egress(&mut device);
    assert_eq!(device.packets.len(), 2);
    match &device.packets[1] {
        Packet::Mldv2Report(records) => assert_eq!(
            *records,
            vec![MldAddressRecordRepr::new(MldRecordType::ModeIsExclude, group_a())]
        ),
        Packet::Igmp(_, _) => panic!("expected an MLD report"),
    }
}

#[test]
fn solicited_node_groups_follow_the_addresses() {
    let mut iface = setup();
    let shared = Ipv6Address::new(0xff02, 0, 0, 0, 0, 1, 0xff00, 1);
    // Both addresses that end in 1 share a group; loopback has none.
    assert!(iface.has_multicast_group(shared.into()));
    assert_eq!(iface.inner.multicast.groups.len(), 1);
    let mut device = TxQueue::new();
    iface.multicast_egress(&mut device);
    assert_eq!(device.packets.len(), 1);

    iface.join_multicast_group(group_a().into()).unwrap();
    iface.inner.ip_addrs = vec![cidr(
        Ipv6Address::new(0xfe80, 0, 0, 0, 0, 0, 0x00ab, 0xcdef).into(),
        64,
    )];
    iface.update_solicited_node_groups();
    assert!(!iface.has_multicast_group(shared.into()));
    let wanted = Ipv6Address::new(0xff02, 0, 0, 0, 0, 1, 0xffab, 0xcdef);
    assert!(iface.has_multicast_group(wanted.into()));
    // A group that is no solicited-node group stays.
    assert!(iface.has_multicast_group(group_a().into()));
}

#[test]
fn addresses_are_classified() {
    assert!(Ipv4Address::new(224, 0, 0, 1).is_multicast());
    assert!(Ipv4Address::new(239, 255, 255, 255).is_multicast());
    assert!(!Ipv4Address::new(240, 0, 0, 0).is_multicast());
    assert!(!Ipv4Address::new(223, 255, 255, 255).is_multicast());
    assert!(Ipv4Address::new(0, 0, 0, 0).is_unspecified());
    assert!(group_a().is_multicast());
    assert!(!group_a().x_is_unicast());
    assert!(!Ipv6Address::new(0, 0, 0, 0, 0, 0, 0, 0).x_is_unicast());
    assert!(Ipv6Address::new(0, 0, 0, 0, 0, 0, 0, 1).is_loopback());
    assert!(Ipv6Address::new(0xff02, 0, 0, 0, 0, 1, 0xff12, 0x3456).is_solicited_node_multicast());
    assert!(!group_a().is_solicited_node_multicast());
}

#[test]
fn generator_draws_the_known_sequence() {
    let mut rand = Rand::new(1);
    let first = rand.rand_u32();
    // The state is one linear congruential step past the seed.
    assert_eq!(rand.state, 0xbb2e_fcec_b1ca_5056);
    assert_eq!(first, 0x2efc_ecb1);
    assert_eq!(rand.rand_u32(), 0xdc90_72b2);
    assert_eq!(rand.rand_u32(), 0x2931_22d0);
}

#[test]
fn a_second_egress_pass_is_silent() {
    let mut iface = setup();
    let mut device = TxQueue::new();
    iface.multicast_egress(&mut device);
    device.packets.clear();

    // A join and a leave of each family, one packet each.
    let v4 = Ipv4Address::new(239, 0, 0, 7);
    iface.join_multicast_group(v4.into()).unwrap();
    iface.join_multicast_group(group_a().into()).unwrap();
    iface.multicast_egress(&mut device);
    assert_eq!(device.packets.len(), 2);
    iface.leave_multicast_group(v4.into()).unwrap();
    iface.leave_multicast_group(group_a().into()).unwrap();
    iface.multicast_egress(&mut device);
    assert_eq!(device.packets.len(), 4);
    assert!(!iface.has_multicast_group(v4.into()));
    assert_eq!(iface.inner.multicast.groups.get(&v4.into()), None);

    let groups: Vec<_> =
        iface.inner.multicast.groups.iter().map(|(addr, state)| (*addr, *state)).collect();
    iface.multicast_egress(&mut device);
    assert_eq!(device.packets.len(), 4);
    let groups_after: Vec<_> =
        iface.inner.multicast.groups.iter().map(|(addr, state)| (*addr, *state)).collect();
    assert_eq!(groups, groups_after);
}

#[test]
fn a_second_solicited_node_update_changes_nothing() {
    let mut iface = setup();
    iface.join_multicast_group(group_a().into()).unwrap();
    iface.multicast_egress(&mut TxQueue::new());
    iface.inner.ip_addrs =
        vec![cidr(Ipv6Address::new(0xfe80, 0, 0, 0, 0, 0, 0x12, 0x3456).into(), 64)];
    iface.update_solicited_node_groups();
    let groups: Vec<_> =
        iface.inner.multicast.groups.iter().map(|(addr, state)| (*addr, *state)).collect();
    assert!(groups.contains(&(group_a().into(), GroupState::Joined)));
    iface.update_solicited_node_groups();
    let groups_after: Vec<_> =
        iface.inner.multicast.groups.iter().map(|(addr, state)| (*addr, *state)).collect();
    assert_eq!(groups, groups_after);
}

use std::cell::{Cell, RefCell};
use std::collections::{BTreeMap, VecDeque};
use std::rc::Rc;

use agentx_ifstack::error::{other, Error, ErrorKind};
use agentx_ifstack::link::{LinkKind, Topology};
use agentx_ifstack::monitor::{
    cycle, publication, Acquisition, AcquisitionError, Attempt, State, TableReader, WaitOutcome,
};
use agentx_ifstack::netlink::{
    check_ready, check_sent, check_wait, consume_dump, decode_datagram, decode_link, poll_millis,
    read_notification, readiness, set_once, Body, Datagram, DatagramIo, Dump, HostOrder, InfoField,
    LinkField, LinkRecord, NetlinkSource, Ready, Turn,
};
use agentx_ifstack::time::Span;
use netlink_packet_core::{DefaultNla, NetlinkMessage, NetlinkPayload, NLM_F_DUMP_INTR};
use netlink_packet_route::link::{
    InfoBareUdp, InfoData, InfoKind, InfoNetkit, InfoVeth, InfoVxlan, LinkAttribute, LinkInfo,
    LinkMessage,
};
use netlink_packet_route::RouteNetlinkMessage;

type Reader = Rc<RefCell<TableReader>>;

fn encoded(mut message: NetlinkMessage<RouteNetlinkMessage>) -> Vec<u8> {
    message.finalize();
    let mut bytes = vec![0; message.buffer_len()];
    message.serialize(&mut bytes);
    bytes
}

fn link_message(sequence: u32, index: u32, name: &str) -> Vec<u8> {
    typed_link_message(sequence, index, name, Vec::new())
}

fn typed_link_message(
    sequence: u32,
    index: u32,
    name: &str,
    mut attributes: Vec<LinkAttribute>,
) -> Vec<u8> {
    let mut link = LinkMessage::default();
    link.header.index = index;
    link.attributes.push(LinkAttribute::IfName(name.to_owned()));
    link.attributes.append(&mut attributes);
    let mut message = NetlinkMessage::from(RouteNetlinkMessage::NewLink(link));
    message.header.sequence_number = sequence;
    encoded(message)
}

fn done_message(sequence: u32, flags: u16) -> Vec<u8> {
    let mut message = NetlinkMessage::new(
        netlink_packet_core::NetlinkHeader::default(),
        NetlinkPayload::Done(netlink_packet_core::DoneMessage::default()),
    );
    message.header.sequence_number = sequence;
    message.header.flags = flags;
    encoded(message)
}

fn no_buffer_space() -> Error {
    Error {
        kind: ErrorKind::System(libc::ENOBUFS),
        message: std::io::Error::from_raw_os_error(libc::ENOBUFS).to_string(),
    }
}

struct ScriptIo {
    opens: VecDeque<Result<u8, Error>>,
    waits: VecDeque<Result<Ready, Error>>,
    receives: BTreeMap<u8, VecDeque<Result<Datagram, Error>>>,
    observer: Option<(Reader, Rc<RefCell<Vec<bool>>>)>,
    clock: Span,
    sent: Vec<Vec<u8>>,
}

impl ScriptIo {
    fn subscribed() -> Self {
        Self {
            opens: VecDeque::from([Ok(1)]),
            waits: VecDeque::new(),
            receives: BTreeMap::new(),
            observer: None,
            clock: Span::zero(),
            sent: Vec::new(),
        }
    }

    fn receive(&mut self, socket: u8, result: Result<Datagram, Error>) {
        self.receives.entry(socket).or_default().push_back(result);
    }
}

impl DatagramIo for ScriptIo {
    type Socket = u8;

    fn open(&mut self, _groups: u32) -> Result<Self::Socket, Error> {
        self.opens
            .pop_front()
            .unwrap_or_else(|| Err(other("unexpected open".to_owned())))
    }

    fn send(&mut self, _socket: &Self::Socket, bytes: &[u8]) -> Result<(), Error> {
        self.sent.push(bytes.to_vec());
        Ok(())
    }

    fn now(&self) -> Span {
        self.clock
    }

    fn sleep(&mut self, duration: Span) {
        self.clock = self.clock.saturating_add(duration);
    }

    fn wait(
        &mut self,
        _notification: &Self::Socket,
        _dump: Option<&Self::Socket>,
        _timeout: Span,
    ) -> Result<Ready, Error> {
        if let Some((reader, observations)) = &self.observer {
            observations
                .borrow_mut()
                .push(reader.borrow().snapshot().is_some());
        }
        self.waits
            .pop_front()
            .unwrap_or_else(|| Err(other("unexpected wait".to_owned())))
    }

    fn receive(&mut self, socket: &Self::Socket) -> Result<Datagram, Error> {
        self.receives
            .get_mut(socket)
            .and_then(VecDeque::pop_front)
            .unwrap_or_else(|| Err(other("unexpected receive".to_owned())))
    }
}

fn datagram(bytes: Vec<u8>) -> Datagram {
    Datagram {
        bytes,
        from_kernel: true,
        truncated: false,
    }
}

#[test]
fn actual_link_message_types_decode_supported_fields() {
    let mut message = LinkMessage::default();
    message.header.index = 10;
    message.attributes = vec![
        LinkAttribute::IfName("vlan0".to_owned()),
        LinkAttribute::Link(2),
        LinkAttribute::Controller(9),
        LinkAttribute::LinkInfo(vec![LinkInfo::Kind(InfoKind::Vlan)]),
    ];
    let bytes = encoded(NetlinkMessage::from(RouteNetlinkMessage::NewLink(message)));
    let messages = decode_datagram(&bytes, &HostOrder::detect()).unwrap();
    let Body::NewLink(record) = &messages[0].body else {
        panic!("expected an interface, got {messages:?}");
    };
    let observed = decode_link(record).unwrap();

    assert_eq!(observed.index, 10);
    assert_eq!(observed.name, "vlan0");
    assert_eq!(observed.kind, LinkKind::Vlan);
    assert_eq!(observed.lower, Some(2));
    assert_eq!(observed.controller, Some(9));
}

#[test]
fn final_done_interruption_rejects_the_dump() {
    let mut done = NetlinkMessage::new(
        netlink_packet_core::NetlinkHeader::default(),
        NetlinkPayload::Done(netlink_packet_core::DoneMessage::default()),
    );
    done.header.sequence_number = 7;
    done.header.flags = NLM_F_DUMP_INTR;
    let mut links = Vec::new();

    let error = consume_dump(&encoded(done), &HostOrder::detect(), 7, &mut links).unwrap_err();

    assert!(error.message().contains("interrupted"), "{error:?}");
}

#[test]
fn production_acquisition_path_decodes_a_complete_typed_inventory() {
    let mut io = ScriptIo::subscribed();
    io.opens.push_back(Ok(2));
    io.waits.push_back(Ok(Ready {
        dump: true,
        ..Ready::default()
    }));
    let mut bytes = link_message(1, 2, "lower");
    bytes.extend(done_message(1, 0));
    io.receive(2, Ok(datagram(bytes)));
    let mut source = NetlinkSource::with_io(io);
    source.subscribe().unwrap();

    let inventory = source.inventory(Attempt { continuity: 4 }).unwrap();

    assert_eq!(inventory.attempt.continuity, 4);
    assert_eq!(inventory.links.len(), 1);
    assert_eq!(inventory.links[0].index, 2);
    assert_eq!(inventory.links[0].name, "lower");
}

#[test]
fn production_packets_build_every_supported_direct_relationship() {
    let mut io = ScriptIo::subscribed();
    io.opens.push_back(Ok(2));
    io.waits.push_back(Ok(Ready {
        dump: true,
        ..Ready::default()
    }));
    let kind = |kind| LinkAttribute::LinkInfo(vec![LinkInfo::Kind(kind)]);
    let mut bytes = Vec::new();
    for packet in [
        typed_link_message(1, 2, "lower", vec![]),
        typed_link_message(1, 9, "bond", vec![kind(InfoKind::Bond)]),
        typed_link_message(1, 3, "member", vec![LinkAttribute::Controller(9)]),
        typed_link_message(
            1,
            10,
            "vlan",
            vec![LinkAttribute::Link(9), kind(InfoKind::Vlan)],
        ),
        typed_link_message(
            1,
            11,
            "macvlan",
            vec![LinkAttribute::Link(2), kind(InfoKind::MacVlan)],
        ),
        typed_link_message(
            1,
            12,
            "ipvlan",
            vec![LinkAttribute::Link(2), kind(InfoKind::IpVlan)],
        ),
        typed_link_message(
            1,
            13,
            "macvtap",
            vec![LinkAttribute::Link(2), kind(InfoKind::MacVtap)],
        ),
        typed_link_message(
            1,
            14,
            "vxlan",
            vec![
                LinkAttribute::Link(99),
                LinkAttribute::LinkInfo(vec![
                    LinkInfo::Kind(InfoKind::Vxlan),
                    LinkInfo::Data(InfoData::Vxlan(vec![InfoVxlan::Link(2)])),
                ]),
            ],
        ),
        typed_link_message(
            1,
            20,
            "veth",
            vec![LinkAttribute::Link(2), kind(InfoKind::Veth)],
        ),
    ] {
        bytes.extend(packet);
    }
    bytes.extend(done_message(1, 0));
    io.receive(2, Ok(datagram(bytes)));
    let mut source = NetlinkSource::with_io(io);
    source.subscribe().unwrap();

    let inventory = source.inventory(Attempt { continuity: 0 }).unwrap();
    let topology = Topology::from_observed(inventory.links).unwrap();
    let relationships: Vec<_> = topology
        .relationships()
        .iter()
        .map(|relationship| (relationship.higher, relationship.lower))
        .collect();

    assert_eq!(
        relationships,
        [(9, 3), (10, 9), (11, 2), (12, 2), (13, 2), (14, 2)]
    );
}

#[test]
fn production_acquisition_path_checks_interruption_on_final_done() {
    let mut io = ScriptIo::subscribed();
    io.opens.push_back(Ok(2));
    io.waits.push_back(Ok(Ready {
        dump: true,
        ..Ready::default()
    }));
    io.receive(2, Ok(datagram(done_message(1, NLM_F_DUMP_INTR))));
    let mut source = NetlinkSource::with_io(io);
    source.subscribe().unwrap();

    let error = source.inventory(Attempt { continuity: 0 }).unwrap_err();

    assert!(matches!(error, AcquisitionError::Ordinary { .. }));
}

#[test]
fn failed_production_acquisitions_return_events_already_consumed() {
    for continuity_lost in [false, true] {
        let mut io = ScriptIo::subscribed();
        io.opens.push_back(Ok(2));
        io.waits.push_back(Ok(Ready {
            notification: true,
            ..Ready::default()
        }));
        io.receive(1, Ok(datagram(link_message(0, 3, "changed"))));
        if continuity_lost {
            io.waits.push_back(Ok(Ready {
                notification: true,
                ..Ready::default()
            }));
            io.receive(1, Err(no_buffer_space()));
        } else {
            io.waits.push_back(Ok(Ready {
                dump: true,
                ..Ready::default()
            }));
            io.receive(
                2,
                Ok(Datagram {
                    truncated: true,
                    ..datagram(done_message(1, 0))
                }),
            );
        }
        let mut source = NetlinkSource::with_io(io);
        source.subscribe().unwrap();

        let error = source.inventory(Attempt { continuity: 0 }).unwrap_err();
        let events = match error {
            AcquisitionError::Ordinary { events, .. } if !continuity_lost => events,
            AcquisitionError::Lost { events, .. } if continuity_lost => events,
            error => panic!("unexpected acquisition result: {error:?}"),
        };

        assert!(events.first.is_some());
        assert_eq!(events.first, events.last);
        assert_eq!(source.notification.is_none(), continuity_lost);
    }
}

#[test]
fn raw_notification_failures_all_report_lost_continuity() {
    #[derive(Clone, Copy)]
    enum Failure {
        Poll,
        Receive,
        Termination,
        Truncation,
        Malformed,
        Overrun,
    }
    for failure in [
        Failure::Poll,
        Failure::Receive,
        Failure::Termination,
        Failure::Truncation,
        Failure::Malformed,
        Failure::Overrun,
    ] {
        let mut io = ScriptIo::subscribed();
        if matches!(failure, Failure::Poll) {
            io.waits
                .push_back(Err(no_buffer_space()));
        } else {
            io.waits.push_back(Ok(Ready {
                notification: true,
                ..Ready::default()
            }));
            let result = match failure {
                Failure::Receive => Err(no_buffer_space()),
                Failure::Termination => Ok(datagram(Vec::new())),
                Failure::Truncation => Ok(Datagram {
                    truncated: true,
                    ..datagram(link_message(0, 2, "link"))
                }),
                Failure::Malformed => Ok(datagram(vec![0; 15])),
                Failure::Overrun => {
                    let mut message = NetlinkMessage::new(
                        netlink_packet_core::NetlinkHeader::default(),
                        NetlinkPayload::Overrun(Vec::new()),
                    );
                    message.header.sequence_number = 0;
                    Ok(datagram(encoded(message)))
                }
                Failure::Poll => unreachable!(),
            };
            io.receive(1, result);
        }
        let mut source = NetlinkSource::with_io(io);
        source.subscribe().unwrap();

        assert!(source.wait(Span::zero()).is_err());
        assert!(source.notification.is_none());
    }
}

#[test]
fn failed_resubscription_can_be_retried_on_the_production_adapter() {
    let mut io = ScriptIo::subscribed();
    io.opens
        .push_back(Err(other("scripted resubscription failure".to_owned())));
    io.opens.push_back(Ok(2));
    let mut source = NetlinkSource::with_io(io);

    source.subscribe().unwrap();
    assert!(source.subscribe().is_err());
    source.subscribe().unwrap();
}

#[test]
fn waiting_for_a_subscription_retry_needs_no_notification_socket() {
    let mut source = NetlinkSource::with_io(ScriptIo::subscribed());

    assert!(matches!(
        source.wait(Span::zero()).unwrap(),
        WaitOutcome::Deadline
    ));
}

#[test]
fn raw_loss_failed_resubscription_and_recovery_drive_publication() {
    let reader = Rc::new(RefCell::new(publication()));
    let observations = Rc::new(RefCell::new(Vec::new()));
    let mut io = ScriptIo::subscribed();
    io.opens.extend([
        Ok(2),
        Err(other("scripted resubscription failure".to_owned())),
        Ok(3),
        Ok(4),
    ]);
    io.waits.extend([
        Ok(Ready {
            dump: true,
            ..Ready::default()
        }),
        Ok(Ready {
            notification: true,
            ..Ready::default()
        }),
        Ok(Ready {
            dump: true,
            ..Ready::default()
        }),
        Ok(Ready {
            shutdown: true,
            ..Ready::default()
        }),
    ]);
    let mut initial = link_message(1, 1, "initial");
    initial.extend(done_message(1, 0));
    io.receive(2, Ok(datagram(initial)));
    io.receive(1, Err(no_buffer_space()));
    let mut recovered = link_message(2, 2, "recovered");
    recovered.extend(done_message(2, 0));
    io.receive(4, Ok(datagram(recovered)));
    io.observer = Some((Rc::clone(&reader), Rc::clone(&observations)));

    let mut source = NetlinkSource::with_io(io);
    let mut state = State::new(Span::from_secs(3600));
    loop {
        let end = cycle(&mut state, &mut source);
        reader.borrow_mut().apply(end.change);
        if end.stop {
            break;
        }
    }

    assert_eq!(&*observations.borrow(), &[false, true, false, true]);
    assert!(reader.borrow().snapshot().is_some());
}

#[test]
fn malformed_and_trailing_netlink_bytes_are_rejected() {
    for bytes in [
        vec![],
        vec![0; 15],
        vec![15, 0, 0, 0, 0, 0, 0, 0, 0, 0, 0, 0, 0, 0, 0, 0],
    ] {
        if bytes.is_empty() {
            assert!(decode_datagram(&bytes, &HostOrder::detect())
                .unwrap()
                .is_empty());
        } else {
            assert!(decode_datagram(&bytes, &HostOrder::detect()).is_err());
        }
    }
}

struct CountedSocket {
    id: u32,
    active: Rc<Cell<usize>>,
}

impl Drop for CountedSocket {
    fn drop(&mut self) {
        self.active.set(self.active.get() - 1);
    }
}

struct CountingIo {
    active: Rc<Cell<usize>>,
    next_id: u32,
    sequences: BTreeMap<u32, u32>,
}

impl DatagramIo for CountingIo {
    type Socket = CountedSocket;

    fn open(&mut self, _groups: u32) -> Result<Self::Socket, Error> {
        self.next_id += 1;
        self.active.set(self.active.get() + 1);
        Ok(CountedSocket {
            id: self.next_id,
            active: Rc::clone(&self.active),
        })
    }

    fn send(&mut self, socket: &Self::Socket, bytes: &[u8]) -> Result<(), Error> {
        assert!(
            socket.id > 1,
            "the notification socket received a dump request"
        );
        let request = decode_datagram(bytes, &HostOrder::detect())?;
        assert_eq!(request.len(), 1);
        self.sequences
            .insert(socket.id, request[0].sequence);
        Ok(())
    }

    fn wait(
        &mut self,
        _notification: &Self::Socket,
        dump: Option<&Self::Socket>,
        _timeout: Span,
    ) -> Result<Ready, Error> {
        let dump = dump.expect("inventory wait has a dump socket");
        Ok(Ready {
            dump: !dump.id.is_multiple_of(3),
            dump_failed: dump.id.is_multiple_of(3),
            ..Ready::default()
        })
    }

    fn receive(&mut self, socket: &Self::Socket) -> Result<Datagram, Error> {
        let sequence = self
            .sequences
            .remove(&socket.id)
            .expect("dump request recorded its sequence");
        Ok(datagram(done_message(sequence, 0)))
    }

    fn now(&self) -> Span {
        Span::zero()
    }

    fn sleep(&mut self, _duration: Span) {}
}

#[test]
fn repeated_failures_recoveries_and_inventories_release_sockets() {
    let active = Rc::new(Cell::new(0));
    let io = CountingIo {
        active: Rc::clone(&active),
        next_id: 0,
        sequences: BTreeMap::new(),
    };
    let mut source = NetlinkSource::with_io(io);
    source.subscribe().unwrap();

    for continuity in 0..100 {
        if continuity % 10 == 0 {
            source.subscribe().unwrap();
        }
        let dump_id = source.io.next_id + 1;
        let result = source.inventory(Attempt { continuity });
        assert_eq!(result.is_err(), dump_id.is_multiple_of(3));
        assert_eq!(active.get(), 1);
    }

    drop(source);
    assert_eq!(active.get(), 0);
}

fn order() -> HostOrder {
    HostOrder::detect()
}

fn message_of(payload: NetlinkPayload<RouteNetlinkMessage>, sequence: u32) -> Vec<u8> {
    let mut message =
        NetlinkMessage::new(netlink_packet_core::NetlinkHeader::default(), payload);
    message.header.sequence_number = sequence;
    encoded(message)
}

fn dumped(bytes: &[u8]) -> (Result<bool, Error>, usize) {
    let mut links = Vec::new();
    let consumed = consume_dump(bytes, &order(), 7, &mut links);
    (consumed, links.len())
}

#[test]
fn an_inventory_is_asked_for_with_a_numbered_request() {
    let mut io = ScriptIo::subscribed();
    io.opens.push_back(Ok(2));
    io.waits.push_back(Ok(Ready {
        dump: true,
        ..Ready::default()
    }));
    io.receive(2, Ok(datagram(done_message(1, 0))));
    let mut source = NetlinkSource::with_io(io);
    source.subscribe().unwrap();
    let inventory = source.inventory(Attempt { continuity: 9 }).unwrap();
    assert!(inventory.links.is_empty());
    let mut expected = Vec::new();
    expected.extend_from_slice(&32_u32.to_ne_bytes());
    expected.extend_from_slice(&18_u16.to_ne_bytes());
    expected.extend_from_slice(&0x301_u16.to_ne_bytes());
    expected.extend_from_slice(&1_u32.to_ne_bytes());
    expected.resize(32, 0);
    assert_eq!(source.io.sent, [expected]);
}

#[test]
fn request_numbers_skip_zero() {
    let mut source = NetlinkSource::with_io(ScriptIo::subscribed());
    source.sequence = u32::MAX - 1;
    assert_eq!(source.next_sequence(), u32::MAX);
    assert_eq!(source.next_sequence(), 1);
    assert_eq!(source.next_sequence(), 2);
}

#[test]
fn the_messages_of_a_datagram_are_decoded_one_after_the_other() {
    let mut bytes = link_message(7, 3, "abc");
    bytes.extend(message_of(NetlinkPayload::Noop, 0));
    bytes.extend(done_message(7, 16));
    let messages = decode_datagram(&bytes, &order()).unwrap();
    assert_eq!(messages.len(), 3);
    assert_eq!(messages[0].sequence, 7);
    assert!(matches!(&messages[0].body, Body::NewLink(record) if record.index == 3));
    assert!(matches!(messages[1].body, Body::Noop));
    assert!(matches!(messages[2].body, Body::Done(0)));
    assert_eq!(messages[2].flags, 16);
}

#[test]
fn framing_errors_are_told_apart() {
    let whole = message_of(NetlinkPayload::Overrun(vec![1, 2, 3]), 0);
    assert_eq!(whole.len(), 19);
    assert!(decode_datagram(&whole, &order()).is_ok());
    let mut padded = whole.clone();
    padded.push(0);
    assert_eq!(decode_datagram(&padded, &order()).unwrap().len(), 1);
    for (bytes, expected) in [
        (vec![0; 15], "trailing bytes after netlink message"),
        (
            message_of(NetlinkPayload::Noop, 0)
                .into_iter()
                .chain([0; 3])
                .collect(),
            "trailing bytes after netlink message",
        ),
        (
            [15_u32.to_ne_bytes().to_vec(), vec![0; 12]].concat(),
            "invalid netlink message length",
        ),
        (
            [17_u32.to_ne_bytes().to_vec(), vec![0; 12]].concat(),
            "invalid netlink message length",
        ),
        (
            {
                let mut bytes = message_of(NetlinkPayload::Overrun(vec![1]), 0);
                assert_eq!(bytes.len(), 17);
                bytes.extend([0, 0]);
                bytes
            },
            "truncated netlink message padding",
        ),
    ] {
        let error = decode_datagram(&bytes, &order()).unwrap_err();
        assert_eq!(error.kind(), ErrorKind::InvalidData);
        assert_eq!(error.message(), expected);
    }
    let mut unknown = message_of(NetlinkPayload::Noop, 0);
    unknown[4..6].copy_from_slice(&60000_u16.to_ne_bytes());
    let error = decode_datagram(&unknown, &order()).unwrap_err();
    assert_eq!(
        error.message(),
        "cannot decode netlink message: Failed to parse message with type 60000: \
         Unknown message type: 60000"
    );
}

#[test]
fn every_refusal_of_an_inventory_has_its_own_reason() {
    let mut failed = netlink_packet_core::DoneMessage::default();
    failed.code = -5;
    let mut early = done_message(7, 0);
    early.extend(link_message(7, 1, "late"));
    let mut deleted = NetlinkMessage::from(RouteNetlinkMessage::DelLink(LinkMessage::default()));
    deleted.header.sequence_number = 7;
    for (bytes, kind, expected) in [
        (
            link_message(6, 1, "other"),
            ErrorKind::InvalidData,
            "interface inventory response sequence did not match its request",
        ),
        (
            done_message(7, NLM_F_DUMP_INTR),
            ErrorKind::Other,
            "interface inventory dump was interrupted",
        ),
        (
            early,
            ErrorKind::InvalidData,
            "interface inventory continued after completion",
        ),
        (
            message_of(NetlinkPayload::Done(failed), 7),
            ErrorKind::Other,
            "interface inventory completion reported an error",
        ),
        (
            message_of(NetlinkPayload::Overrun(vec![]), 7),
            ErrorKind::Other,
            "interface inventory socket reported overrun",
        ),
        (
            encoded(deleted),
            ErrorKind::InvalidData,
            "unexpected interface inventory message",
        ),
    ] {
        let (consumed, _) = dumped(&bytes);
        let error = consumed.unwrap_err();
        assert_eq!(error.kind(), kind);
        assert_eq!(error.message(), expected);
    }
    let (ended, count) = dumped(&link_message(7, 1, "one"));
    assert!(!ended.unwrap());
    assert_eq!(count, 1);
}

#[test]
fn an_error_of_the_kernel_is_reported_by_its_number() {
    let mut message = netlink_packet_core::ErrorMessage::default();
    message.code = std::num::NonZeroI32::new(-19);
    let (consumed, _) = dumped(&message_of(NetlinkPayload::Error(message), 7));
    let error = consumed.unwrap_err();
    assert_eq!(error.kind(), ErrorKind::System(19));
    assert!(error.message().contains("os error 19"), "{error:?}");
    let mut lowest = message_of(
        NetlinkPayload::Error(netlink_packet_core::ErrorMessage::default()),
        7,
    );
    lowest[16..20].copy_from_slice(&i32::MIN.to_ne_bytes());
    let (consumed, _) = dumped(&lowest);
    let error = consumed.unwrap_err();
    assert_eq!(error.kind(), ErrorKind::Other);
    assert_eq!(error.message(), "unknown netlink error");
}

#[test]
fn nothing_may_be_said_twice_of_an_interface() {
    let name = || LinkField::Named("eth0".to_owned());
    let info = |fields| LinkField::Described(fields);
    let called = || InfoField::Called("vlan".to_owned());
    for (fields, expected) in [
        (vec![name(), name()], "duplicate interface name"),
        (
            vec![LinkField::ControlledBy(1), LinkField::ControlledBy(1)],
            "duplicate controller",
        ),
        (
            vec![LinkField::Above(1), LinkField::Above(2)],
            "duplicate lower interface",
        ),
        (
            vec![LinkField::AboveNamespace(0), LinkField::AboveNamespace(0)],
            "duplicate lower network namespace",
        ),
        (
            vec![info(vec![called()]), info(vec![called()])],
            "duplicate link kind",
        ),
        (
            vec![info(vec![InfoField::OtherData, InfoField::Tunnel(vec![])])],
            "duplicate link data",
        ),
        (
            vec![
                info(vec![InfoField::Tunnel(vec![Some(1), None, Some(1)])]),
                name(),
            ],
            "duplicate VXLAN underlay",
        ),
        (vec![LinkField::Unrelated], "interface has no name"),
    ] {
        let error = decode_link(&LinkRecord { index: 1, fields }).unwrap_err();
        assert_eq!(error.kind(), ErrorKind::InvalidData);
        assert_eq!(error.message(), expected);
    }
    let record = LinkRecord {
        index: 4,
        fields: vec![
            name(),
            LinkField::AboveNamespace(-1),
            info(vec![
                InfoField::Called("vxlan".to_owned()),
                InfoField::OtherInfo,
                InfoField::Tunnel(vec![None, Some(8)]),
            ]),
        ],
    };
    let link = decode_link(&record).unwrap();
    assert_eq!(link.kind, LinkKind::Vxlan);
    assert_eq!(link.vxlan_lower, Some(8));
    assert_eq!(link.lower_netnsid, Some(-1));
    let mut slot = None;
    assert!(set_once(&mut slot, 3, "number").is_ok());
    assert_eq!(
        set_once(&mut slot, 4, "number").unwrap_err().message(),
        "duplicate number"
    );
    assert_eq!(slot, Some(4));
}

#[test]
fn every_kind_of_interface_has_its_name() {
    for (text, kind) in [
        ("bond", LinkKind::Bond),
        ("bridge", LinkKind::Bridge),
        ("vlan", LinkKind::Vlan),
        ("macvlan", LinkKind::MacVlan),
        ("ipvlan", LinkKind::IpVlan),
        ("macvtap", LinkKind::MacVtap),
        ("vxlan", LinkKind::Vxlan),
        ("veth", LinkKind::Veth),
        ("vrf", LinkKind::Other),
        ("bonding", LinkKind::Other),
    ] {
        let bytes = typed_link_message(
            7,
            2,
            "x",
            vec![LinkAttribute::LinkInfo(vec![LinkInfo::Kind(
                InfoKind::from(text),
            )])],
        );
        let mut links = Vec::new();
        consume_dump(&bytes, &order(), 7, &mut links).unwrap();
        assert_eq!(links[0].kind, kind, "{text}");
    }
}

#[test]
fn fields_of_the_kernel_keep_their_values() {
    let bytes = typed_link_message(
        7,
        77,
        "tun\u{e9}",
        vec![
            LinkAttribute::Mtu(1500),
            LinkAttribute::Link(5),
            LinkAttribute::LinkNetNsId(-3),
            LinkAttribute::Controller(6),
            LinkAttribute::LinkInfo(vec![
                LinkInfo::Kind(InfoKind::Vxlan),
                LinkInfo::Data(InfoData::Vxlan(vec![
                    InfoVxlan::Id(9),
                    InfoVxlan::Link(11),
                ])),
            ]),
        ],
    );
    let mut links = Vec::new();
    consume_dump(&bytes, &order(), 7, &mut links).unwrap();
    let link = &links[0];
    assert_eq!(link.index, 77);
    assert_eq!(link.name, "tun\u{e9}");
    assert_eq!(link.lower, Some(5));
    assert_eq!(link.lower_netnsid, Some(-3));
    assert_eq!(link.controller, Some(6));
    assert_eq!(link.vxlan_lower, Some(11));
}

#[test]
fn notifications_tell_of_changes() {
    let change = link_message(0, 3, "changed");
    assert!(read_notification(&datagram(change.clone()), &order()).unwrap());
    let noop = message_of(NetlinkPayload::Noop, 0);
    assert!(!read_notification(&datagram(noop), &order()).unwrap());
    let foreign = Datagram {
        from_kernel: false,
        ..datagram(change.clone())
    };
    for (notification, kind, expected) in [
        (
            Datagram {
                truncated: true,
                ..datagram(change)
            },
            ErrorKind::InvalidData,
            "link notification datagram was truncated",
        ),
        (
            foreign,
            ErrorKind::InvalidData,
            "link notification came from a non-kernel sender",
        ),
        (
            datagram(vec![]),
            ErrorKind::UnexpectedEof,
            "link notification socket terminated",
        ),
        (
            datagram(link_message(4, 3, "answer")),
            ErrorKind::InvalidData,
            "link notification carried a response sequence",
        ),
        (
            datagram(message_of(NetlinkPayload::Overrun(vec![]), 0)),
            ErrorKind::Other,
            "link notification socket reported overrun",
        ),
        (
            datagram(done_message(0, 0)),
            ErrorKind::InvalidData,
            "unexpected link notification message",
        ),
    ] {
        let error = read_notification(&notification, &order()).unwrap_err();
        assert_eq!(error.kind(), kind);
        assert_eq!(error.message(), expected);
    }
}

#[test]
fn the_end_of_a_wait_is_told_by_what_is_ready() {
    let mut ready = Ready::default();
    assert!(matches!(
        check_wait(&ready),
        Ok(Some(WaitOutcome::Deadline))
    ));
    ready.notification = true;
    assert!(matches!(check_wait(&ready), Ok(None)));
    ready.notification_failed = true;
    let error = check_wait(&ready).unwrap_err();
    assert_eq!(error.kind(), ErrorKind::Other);
    assert_eq!(error.message(), "link notification socket failed");
    ready.shutdown = true;
    assert!(matches!(
        check_wait(&ready),
        Ok(Some(WaitOutcome::Shutdown))
    ));
}

#[test]
fn failures_of_sockets_are_told_apart() {
    let events = Default::default();
    let mut ready = Ready {
        dump_failed: true,
        ..Ready::default()
    };
    assert!(matches!(
        check_ready(&ready, events),
        Err(AcquisitionError::Ordinary { .. })
    ));
    ready.notification_failed = true;
    assert!(matches!(
        check_ready(&ready, events),
        Err(AcquisitionError::Lost { .. })
    ));
    assert!(check_ready(&Ready::default(), events).is_ok());
    assert!(check_sent(32, 32).is_ok());
    let error = check_sent(31, 32).unwrap_err();
    assert_eq!(error.kind(), ErrorKind::WriteZero);
    assert_eq!(error.message(), "partial netlink request write");
}

#[test]
fn an_inventory_is_bounded_in_time_and_size() {
    let mut io = ScriptIo::subscribed();
    io.opens.push_back(Ok(2));
    io.clock = Span::longest();
    let mut source = NetlinkSource::with_io(io);
    source.subscribe().unwrap();
    match source.inventory(Attempt { continuity: 0 }).unwrap_err() {
        AcquisitionError::Ordinary { error, .. } => {
            assert_eq!(error.kind(), ErrorKind::TimedOut);
            assert_eq!(error.message(), "interface inventory exceeded its deadline");
        }
        error => panic!("unexpected acquisition result: {error:?}"),
    }

    let mut io = ScriptIo::subscribed();
    io.opens.push_back(Ok(2));
    for _ in 0..17 {
        io.waits.push_back(Ok(Ready {
            dump: true,
            ..Ready::default()
        }));
        let mut bytes = Vec::new();
        while bytes.len() < 1024 * 1024 {
            bytes.extend(link_message(1, 5, "name"));
        }
        io.receive(2, Ok(datagram(bytes)));
    }
    let mut source = NetlinkSource::with_io(io);
    source.subscribe().unwrap();
    match source.inventory(Attempt { continuity: 0 }).unwrap_err() {
        AcquisitionError::Ordinary { error, .. } => {
            assert_eq!(error.message(), "interface inventory exceeded its byte limit");
        }
        error => panic!("unexpected acquisition result: {error:?}"),
    }
}

#[test]
fn waits_are_rounded_up_to_milliseconds() {
    for (nanos, millis) in [
        (0, 0),
        (1, 1),
        (1_000_000, 1),
        (1_000_001, 2),
        (2_147_483_646_000_000, i32::MAX - 1),
        (2_147_483_646_000_001, i32::MAX),
        (u128::MAX, i32::MAX),
    ] {
        assert_eq!(poll_millis(Span { nanos }), millis);
    }
}

#[test]
fn a_datagram_longer_than_its_buffer_is_truncated() {
    let short = Datagram::received(vec![1, 2, 3, 4], 3, 0);
    assert_eq!(short.bytes, [1, 2, 3]);
    assert!(short.from_kernel);
    assert!(!short.truncated);
    let long = Datagram::received(vec![1, 2], 3, 8);
    assert_eq!(long.bytes, [1, 2]);
    assert!(!long.from_kernel);
    assert!(long.truncated);
}

fn bareudp(port: InfoBareUdp) -> LinkAttribute {
    LinkAttribute::LinkInfo(vec![
        LinkInfo::Kind(InfoKind::BareUdp),
        LinkInfo::Data(InfoData::BareUdp(vec![InfoBareUdp::Port(4789), port])),
    ])
}

fn peer(attribute: LinkAttribute) -> LinkMessage {
    let mut peer = LinkMessage::default();
    peer.attributes = vec![LinkAttribute::IfName("peer".to_owned()), attribute];
    peer
}

#[test]
fn a_lowest_port_is_of_two_bytes() {
    let sound = || bareudp(InfoBareUdp::SrcPortMin(4000));
    let faulty = |length: usize| {
        bareudp(InfoBareUdp::Other(DefaultNla::new(3, vec![1; length])))
    };
    let veth = |attribute: LinkAttribute| {
        LinkAttribute::LinkInfo(vec![
            LinkInfo::Kind(InfoKind::Veth),
            LinkInfo::Data(InfoData::Veth(InfoVeth::Peer(peer(attribute)))),
        ])
    };
    let netkit = |attribute: LinkAttribute| {
        LinkAttribute::LinkInfo(vec![
            LinkInfo::Kind(InfoKind::Netkit),
            LinkInfo::Data(InfoData::Netkit(vec![
                InfoNetkit::Primary(true),
                InfoNetkit::Peer(peer(attribute)),
            ])),
        ])
    };
    for accepted in [sound(), faulty(2), veth(sound()), netkit(sound())] {
        let bytes = typed_link_message(7, 2, "one", vec![accepted]);
        assert_eq!(decode_datagram(&bytes, &order()).unwrap().len(), 1);
    }
    for refused in [
        faulty(0),
        faulty(1),
        faulty(3),
        veth(faulty(3)),
        netkit(faulty(1)),
        veth(netkit(faulty(4))),
    ] {
        let bytes = typed_link_message(7, 2, "one", vec![refused]);
        let error = decode_datagram(&bytes, &order()).unwrap_err();
        assert_eq!(error.kind(), ErrorKind::InvalidData);
        assert!(error.message().starts_with("cannot decode netlink message: "));
    }
    let other_kind = LinkAttribute::LinkInfo(vec![
        LinkInfo::Kind(InfoKind::Other("barely".to_owned())),
        LinkInfo::Data(InfoData::Other(vec![7, 0, 3, 0, 1, 2, 3, 0])),
    ]);
    let bytes = typed_link_message(7, 2, "one", vec![other_kind]);
    assert_eq!(decode_datagram(&bytes, &order()).unwrap().len(), 1);
}

#[test]
fn marks_of_sockets_tell_what_is_ready() {
    assert_eq!(readiness(0, 0), Ready::default());
    for readable in [libc::POLLIN, libc::POLLERR] {
        let ready = readiness(readable, 0);
        assert!(ready.notification && !ready.dump && !ready.notification_failed);
        let ready = readiness(0, readable);
        assert!(!ready.notification && ready.dump && !ready.dump_failed);
    }
    for failed in [libc::POLLHUP, libc::POLLNVAL] {
        let ready = readiness(failed, 0);
        assert!(!ready.notification && ready.notification_failed && !ready.dump_failed);
        let ready = readiness(0, failed);
        assert!(!ready.dump && !ready.notification_failed && ready.dump_failed);
    }
    let both = readiness(libc::POLLIN | libc::POLLHUP, libc::POLLOUT);
    assert!(both.notification && both.notification_failed && !both.dump && !both.dump_failed);
}

#[test]
fn a_turn_ends_by_what_was_received() {
    let both = || {
        Ok(Ready {
            notification: true,
            dump: true,
            ..Ready::default()
        })
    };
    let mut dump = Dump::new(7);
    let told = |seconds: u64| Some(Ok(Some(Span::from_secs(seconds))));
    let answer = |bytes: Vec<u8>| Some(Ok(datagram(bytes)));
    assert!(matches!(
        dump.turn(both(), told(3), answer(link_message(7, 1, "one")), &order()),
        Turn::Again
    ));
    assert!(matches!(dump.turn(both(), Some(Ok(None)), None, &order()), Turn::Again));
    assert!(matches!(
        dump.turn(both(), told(5), answer(done_message(7, 0)), &order()),
        Turn::Complete
    ));
    assert_eq!(dump.links.len(), 1);
    assert_eq!(dump.events.first, Some(Span::from_secs(3)));
    assert_eq!(dump.events.last, Some(Span::from_secs(5)));

    let failure = || Err(other("scripted failure".to_owned()));
    for (waited, notified) in [
        (Err(other("scripted failure".to_owned())), None),
        (both(), Some(failure())),
    ] {
        match dump.turn(waited, notified, None, &order()) {
            Turn::Failed(AcquisitionError::Lost { error, events }) => {
                assert_eq!(error.message(), "scripted failure");
                assert_eq!(events.last, Some(Span::from_secs(5)));
            }
            turn => panic!("unexpected turn: {turn:?}"),
        }
    }
    match dump.turn(
        both(),
        told(6),
        Some(Err(other("scripted failure".to_owned()))),
        &order(),
    ) {
        Turn::Failed(AcquisitionError::Ordinary { error, events }) => {
            assert_eq!(error.message(), "scripted failure");
            assert_eq!(events.first, Some(Span::from_secs(3)));
            assert_eq!(events.last, Some(Span::from_secs(6)));
        }
        turn => panic!("unexpected turn: {turn:?}"),
    }
}

#[test]
fn changes_come_with_the_inventory_they_were_told_during() {
    let mut io = ScriptIo::subscribed();
    io.opens.push_back(Ok(2));
    io.clock = Span::from_secs(40);
    for dump in [false, true] {
        io.waits.push_back(Ok(Ready {
            notification: true,
            dump,
            ..Ready::default()
        }));
        io.receive(1, Ok(datagram(link_message(0, 9, "changed"))));
    }
    let mut bytes = link_message(1, 2, "two");
    bytes.extend(done_message(1, 0));
    io.receive(2, Ok(datagram(bytes)));
    let mut source = NetlinkSource::with_io(io);
    source.subscribe().unwrap();
    let inventory = source.inventory(Attempt { continuity: 4 }).unwrap();
    assert_eq!(inventory.attempt, Attempt { continuity: 4 });
    assert_eq!(inventory.links.len(), 1);
    assert_eq!(inventory.links[0].name, "two");
    assert_eq!(inventory.events.first, Some(Span::from_secs(40)));
    assert_eq!(inventory.events.last, Some(Span::from_secs(40)));
    assert!(source.notification.is_some());
}

#[test]
fn an_inventory_needs_notifications() {
    let mut io = ScriptIo::subscribed();
    io.opens = VecDeque::from([Ok(2)]);
    let mut source = NetlinkSource::with_io(io);
    match source.inventory(Attempt { continuity: 0 }).unwrap_err() {
        AcquisitionError::Lost { error, .. } => {
            assert_eq!(error.message(), "notification socket absent");
        }
        error => panic!("unexpected acquisition result: {error:?}"),
    }
}

#[test]
fn the_first_thing_that_is_malformed_is_the_reason() {
    let reason = |attributes: Vec<LinkAttribute>| {
        let bytes = typed_link_message(7, 2, "one", attributes);
        let error = decode_datagram(&bytes, &order()).unwrap_err();
        assert_eq!(error.kind(), ErrorKind::InvalidData);
        error.message()
    };
    let mtu = || LinkAttribute::Other(DefaultNla::new(4, vec![1, 2]));
    let port = |others: Vec<InfoBareUdp>| {
        let mut data = vec![InfoBareUdp::Other(DefaultNla::new(1, vec![1]))];
        data.extend(others);
        LinkAttribute::LinkInfo(vec![
            LinkInfo::Kind(InfoKind::BareUdp),
            LinkInfo::Data(InfoData::BareUdp(data)),
        ])
    };
    let lowest = || InfoBareUdp::Other(DefaultNla::new(3, vec![1; 3]));
    let mtu_alone = reason(vec![mtu()]);
    assert!(mtu_alone.contains("IFLA_MTU"), "{mtu_alone}");
    assert_eq!(reason(vec![mtu(), bareudp(lowest())]), mtu_alone);
    assert_ne!(reason(vec![bareudp(lowest()), mtu()]), mtu_alone);
    let port_alone = reason(vec![port(vec![])]);
    assert!(port_alone.contains("IFLA_BAREUDP_PORT"), "{port_alone}");
    assert_eq!(reason(vec![port(vec![lowest()])]), port_alone);
    assert_eq!(reason(vec![port(vec![lowest(), lowest()]), mtu()]), port_alone);
    assert!(reason(vec![bareudp(lowest())]).contains("bareudp"));
}

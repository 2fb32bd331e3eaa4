//! Inventories and notifications of network interfaces, as the kernel sends
//! them.

use vstd::prelude::*;

use netlink_packet_core::{NetlinkMessage, NetlinkPayload, Parseable};
use netlink_packet_route::link::InfoData::Vxlan;
use netlink_packet_route::link::InfoVxlan::Link as Underlay;
use netlink_packet_route::link::LinkAttribute::{
    Controller, IfName, Link, LinkInfo as Infos, LinkNetNsId,
};
use netlink_packet_route::link::LinkInfo::{Data, Kind};
use netlink_packet_route::link::LinkMessage;
use netlink_packet_route::RouteNetlinkMessage;

use crate::attributes::{a_struck_message_has_no_fault, check_link, Checked};
use crate::error::{invalid, other, Error, ErrorKind};
use crate::link::{LinkKind, ObservedLink, ObservedView};
use crate::monitor::{Acquisition, AcquisitionError, Attempt, EventBatch, Inventory, WaitOutcome};
use crate::netlink::InfoField::{Called, OtherData, OtherInfo, Tunnel};
use crate::netlink::LinkField::{
    Above, AboveNamespace, ControlledBy, Described, Named, Unrelated,
};
use crate::time::Span;
use crate::wire::{u16_from, u32_from};

verus! {

/// The order in which this machine keeps the bytes of a number. The kernel
/// writes its messages in that order. The only way to have a value of this type
/// is to detect the order, so it is always that of this machine.
#[derive(Clone, Copy, Debug)]
pub struct HostOrder {
    high_first: bool,
}

/// Calls `u16::from_ne_bytes`, which makes a number of two bytes in the order of
/// this machine: the first byte is the higher one or the lower one.
#[verifier::external_body]
fn native_number(first: u8, second: u8) -> (number: u16)
    ensures
        number == 256 * first + second || number == 256 * second + first,
{
    u16::from_ne_bytes([first, second])
}

impl HostOrder {
    /// Whether the highest byte comes first.
    pub closed spec fn is_high_first(&self) -> bool {
        self.high_first
    }

    /// Whether the order is that in which this machine makes a number of the bytes
    /// 1 and 0: the highest byte comes first exactly if the number is 256.
    pub closed spec fn is_native(&self) -> bool {
        exists|number: u16| #[trigger]
            call_ensures(native_number, (1u8, 0u8), number) && (self.high_first <==> number
                == 256)
    }

    #[verifier::type_invariant]
    spec fn always_native(self) -> bool {
        self.is_native()
    }

    /// Whether the highest byte comes first.
    pub fn high_first(&self) -> (high_first: bool)
        ensures
            high_first == self.is_high_first(),
    {
        self.high_first
    }

    /// The order of this machine.
    pub fn detect() -> (order: Self)
        ensures
            order.is_native(),
    {
        Self { high_first: native_number(1, 0) == 256 }
    }
}

/// The length of the header of a message.
pub const NETLINK_HEADER_LENGTH: usize = 16;

/// The flag by which the kernel says that an inventory changed while it was
/// taken.
pub const NLM_F_DUMP_INTR: u16 = 16;

/// What a message is, as far as it matters here.
#[derive(Clone, Copy, Debug, PartialEq, Eq, Structural)]
pub enum RawBody {
    NewLink,
    DelLink,
    Done(i32),
    Error(i32),
    Overrun,
    Noop,
    Other,
}

/// A message without what it says of an interface.
#[derive(Clone, Copy, Debug, PartialEq, Eq, Structural)]
pub struct RawMessage {
    pub sequence: u32,
    pub flags: u16,
    pub body: RawBody,
}

/// The number with a sign at position `i`.
pub open spec fn i32_at(bytes: Seq<u8>, i: int, high_first: bool) -> i32 {
    let n = crate::wire::u32_at(bytes, i, high_first);
    if n < 0x8000_0000 {
        n as i32
    } else {
        (n - 0x1_0000_0000) as i32
    }
}

/// Whether some bytes begin with their own number and are long enough for a
/// header.
pub open spec fn is_framed(bytes: Seq<u8>, high_first: bool) -> bool {
    bytes.len() >= NETLINK_HEADER_LENGTH && crate::wire::u32_at(bytes, 0, high_first)
        == bytes.len()
}

/// The kind, the flags and the number of a message, and what it is: the kinds
/// up to 4 are common to all users of such messages; 16 tells of an interface
/// and 17 of the end of one. A message that ends an inventory without a code ends
/// it well.
pub open spec fn raw_message(bytes: Seq<u8>, high_first: bool) -> RawMessage {
    RawMessage {
        sequence: crate::wire::u32_at(bytes, 8, high_first),
        flags: crate::wire::u16_at(bytes, 6, high_first),
        body: match crate::wire::u16_at(bytes, 4, high_first) {
            1 => RawBody::Noop,
            2 => RawBody::Error(i32_at(bytes, 16, high_first)),
            3 => RawBody::Done(
                if bytes.len() == NETLINK_HEADER_LENGTH {
                    0
                } else {
                    i32_at(bytes, 16, high_first)
                },
            ),
            4 => RawBody::Overrun,
            16 => RawBody::NewLink,
            17 => RawBody::DelLink,
            _ => RawBody::Other,
        },
    }
}

/// Whether the message that some bytes are can be decoded, and if it cannot, the
/// reason. There are dozens of kinds of message, each with its own layout.
pub uninterp spec fn decodable(bytes: Seq<u8>, high_first: bool) -> Result<(), Seq<char>>;

/// Where in a message on an interface the attribute is that must not be decoded, if
/// there is one: a message that asks for an interface or sets it counts too.
pub open spec fn fault_in(bytes: Seq<u8>, high_first: bool) -> Option<int> {
    if 16 <= crate::wire::u16_at(bytes, 4, high_first) <= 19 {
        match crate::attributes::link_scan(bytes.skip(16), high_first) {
            crate::attributes::Scan::Fault(at) => Some(at + 16),
            _ => None,
        }
    } else {
        None
    }
}

/// Whether the message that some bytes are can be read, and if it cannot, the reason.
/// With a fault it cannot: the reason is then that for which it cannot be decoded up
/// to there.
pub open spec fn readable(bytes: Seq<u8>, high_first: bool) -> Result<(), Seq<char>> {
    match fault_in(bytes, high_first) {
        None => decodable(bytes, high_first),
        Some(at) => match decodable(crate::attributes::struck(bytes, at), high_first) {
            Err(reason) => Err(reason),
            Ok(_) => Err("invalid IFLA_BAREUDP_SRCPORT_MIN value"@),
        },
    }
}

/// Calls `NetlinkMessage::<RouteNetlinkMessage>::deserialize` from
/// `netlink_packet_core`, which panics on a message with a lowest port that is not of
/// two bytes. Whether it succeeds, and the reason if it does not, is a
/// function of the bytes and of the order of this machine. If it succeeds, the
/// message is as its header says; and one that tells of an interface is one of
/// which `LinkMessage::parse` can make sense, which the call itself makes use of.
#[verifier::external_body]
fn parse_message(bytes: &[u8], order: &HostOrder) -> (parsed: Result<RawMessage, String>)
    requires
        is_framed(bytes@, order.is_high_first()),
        fault_in(bytes@, order.is_high_first()) is None,
    ensures
        parsed is Ok <==> decodable(bytes@, order.is_high_first()) is Ok,
        parsed is Err ==> decodable(bytes@, order.is_high_first()) == Err::<(), Seq<char>>(
            parsed->Err_0@,
        ),
        parsed is Ok ==> parsed->Ok_0 == raw_message(bytes@, order.is_high_first()),
        parsed is Ok ==> parsed->Ok_0.body is NewLink ==> link_in(
            bytes@.skip(16),
            order.is_high_first(),
        ) is Some,
{
    let message = NetlinkMessage::<RouteNetlinkMessage>::deserialize(bytes);
    let message = message.map_err(|error| error.to_string())?;
    let body = match message.payload {
        NetlinkPayload::InnerMessage(RouteNetlinkMessage::NewLink(_)) => RawBody::NewLink,
        NetlinkPayload::InnerMessage(RouteNetlinkMessage::DelLink(_)) => RawBody::DelLink,
        NetlinkPayload::Done(done) => RawBody::Done(done.code),
        NetlinkPayload::Error(error) => RawBody::Error(error.raw_code()),
        NetlinkPayload::Overrun(_) => RawBody::Overrun,
        NetlinkPayload::Noop => RawBody::Noop,
        _ => RawBody::Other,
    };
    Ok(RawMessage { sequence: message.header.sequence_number, flags: message.header.flags, body })
}

/// Something that a message says of an interface.
#[derive(Debug)]
pub enum LinkField {
    Named(String),
    ControlledBy(u32),
    Above(u32),
    AboveNamespace(i32),
    Described(Vec<InfoField>),
    Unrelated,
}

/// Something that a message says of what kind an interface is. Data of a tunnel
/// may name the interface that it goes through.
#[derive(Debug)]
pub enum InfoField {
    Called(String),
    Tunnel(Vec<Option<u32>>),
    OtherData,
    OtherInfo,
}

/// What a message says of an interface.
#[derive(Debug)]
pub struct LinkRecord {
    pub index: u32,
    pub fields: Vec<LinkField>,
}

/// The value of a [`LinkField`].
pub enum LinkFieldView {
    Named(Seq<char>),
    ControlledBy(u32),
    Above(u32),
    AboveNamespace(i32),
    Described(Seq<InfoFieldView>),
    Unrelated,
}

/// The value of an [`InfoField`].
pub enum InfoFieldView {
    Called(Seq<char>),
    Tunnel(Seq<Option<u32>>),
    OtherData,
    OtherInfo,
}

/// The value of a [`LinkRecord`].
pub struct LinkRecordView {
    pub index: u32,
    pub fields: Seq<LinkFieldView>,
}

impl View for InfoField {
    type V = InfoFieldView;

    open spec fn view(&self) -> InfoFieldView {
        match *self {
            InfoField::Called(kind) => InfoFieldView::Called(kind@),
            InfoField::Tunnel(through) => InfoFieldView::Tunnel(through@),
            InfoField::OtherData => InfoFieldView::OtherData,
            InfoField::OtherInfo => InfoFieldView::OtherInfo,
        }
    }
}

impl View for LinkField {
    type V = LinkFieldView;

    open spec fn view(&self) -> LinkFieldView {
        match *self {
            LinkField::Named(name) => LinkFieldView::Named(name@),
            LinkField::ControlledBy(index) => LinkFieldView::ControlledBy(index),
            LinkField::Above(index) => LinkFieldView::Above(index),
            LinkField::AboveNamespace(id) => LinkFieldView::AboveNamespace(id),
            LinkField::Described(infos) => LinkFieldView::Described(
                infos@.map_values(|info: InfoField| info@),
            ),
            LinkField::Unrelated => LinkFieldView::Unrelated,
        }
    }
}

impl View for LinkRecord {
    type V = LinkRecordView;

    open spec fn view(&self) -> LinkRecordView {
        LinkRecordView {
            index: self.index,
            fields: self.fields@.map_values(|field: LinkField| field@),
        }
    }
}

/// The value of an index and a list of fields.
pub open spec fn record_view(record: (u32, Vec<LinkField>)) -> LinkRecordView {
    LinkRecordView { index: record.0, fields: record.1@.map_values(|field: LinkField| field@) }
}

/// What some bytes say of an interface, if they do: its index and a list of
/// fields, some of which are lists themselves. There are dozens of kinds of
/// field, each with its own layout.
pub uninterp spec fn link_in(bytes: Seq<u8>, high_first: bool) -> Option<LinkRecordView>;

/// Calls `LinkMessage::parse` from `netlink_packet_route` and hands out the index and
/// the fields of its result, each field as one of this crate; the kind of an
/// interface is handed out as its display formatting gives it, which is the text
/// that it was parsed from. What the call finds is a function of the bytes and of
/// the order of this machine. It panics on a lowest port that is not of two bytes.
#[verifier::external_body]
fn parse_link(bytes: &[u8], order: &HostOrder) -> (parsed: Option<(u32, Vec<LinkField>)>)
    requires
        !(crate::attributes::link_scan(bytes@, order.is_high_first()) is Fault),
    ensures
        parsed is Some <==> link_in(bytes@, order.is_high_first()) is Some,
        parsed is Some ==> record_view(parsed->0) == link_in(bytes@, order.is_high_first())->0,
{
    LinkMessage::parse(bytes).ok().map(|link| (link.header.index, link.attributes.into_iter().map(
        |field| match field {
            IfName(name) => Named(name),
            Controller(index) => ControlledBy(index),
            Link(index) => Above(index),
            LinkNetNsId(id) => AboveNamespace(id),
            Infos(infos) => Described(infos.into_iter().map(|info| match info {
                Kind(kind) => Called(kind.to_string()),
                Data(Vxlan(data)) => Tunnel(data.into_iter().map(
                    |x| match x { Underlay(index) => Some(index), _ => None }).collect()),
                Data(_) => OtherData, _ => OtherInfo,
            }).collect()),
            _ => Unrelated,
        },
    ).collect()))
}

/// What a message is, with what it says of an interface.
#[derive(Debug)]
pub enum Body {
    NewLink(LinkRecord),
    DelLink,
    Done(i32),
    Error(i32),
    Overrun,
    Noop,
    Other,
}

/// A message.
#[derive(Debug)]
pub struct Message {
    pub sequence: u32,
    pub flags: u16,
    pub body: Body,
}

/// The value of a [`Body`].
pub enum BodyView {
    NewLink(LinkRecordView),
    DelLink,
    Done(i32),
    Error(i32),
    Overrun,
    Noop,
    Other,
}

/// The value of a [`Message`].
pub struct MessageView {
    pub sequence: u32,
    pub flags: u16,
    pub body: BodyView,
}

impl View for Message {
    type V = MessageView;

    open spec fn view(&self) -> MessageView {
        MessageView {
            sequence: self.sequence,
            flags: self.flags,
            body: match self.body {
                Body::NewLink(record) => BodyView::NewLink(record@),
                Body::DelLink => BodyView::DelLink,
                Body::Done(code) => BodyView::Done(code),
                Body::Error(code) => BodyView::Error(code),
                Body::Overrun => BodyView::Overrun,
                Body::Noop => BodyView::Noop,
                Body::Other => BodyView::Other,
            },
        }
    }
}

/// The values of a list of messages.
pub open spec fn message_views(messages: Seq<Message>) -> Seq<MessageView> {
    messages.map_values(|message: Message| message@)
}

/// The message that some bytes are.
pub open spec fn message_in(bytes: Seq<u8>, high_first: bool) -> MessageView {
    let raw = raw_message(bytes, high_first);
    MessageView {
        sequence: raw.sequence,
        flags: raw.flags,
        body: match raw.body {
            RawBody::NewLink => BodyView::NewLink(link_in(bytes.skip(16), high_first)->0),
            RawBody::DelLink => BodyView::DelLink,
            RawBody::Done(code) => BodyView::Done(code),
            RawBody::Error(code) => BodyView::Error(code),
            RawBody::Overrun => BodyView::Overrun,
            RawBody::Noop => BodyView::Noop,
            RawBody::Other => BodyView::Other,
        },
    }
}

/// Why a message with a fault cannot be read.
fn refuse(bytes: &[u8], at: usize, order: &HostOrder) -> (error: Error)
    requires
        is_framed(bytes@, order.is_high_first()),
        fault_in(bytes@, order.is_high_first()) == Some(at as int),
    ensures
        readable(bytes@, order.is_high_first()) matches Err(reason) && error@ == malformed(
            "cannot decode netlink message: "@ + reason,
        ),
{
    proof {
        a_struck_message_has_no_fault(bytes@.skip(16), order.is_high_first());
    }
    let mut copy: Vec<u8> = vstd::slice::slice_to_vec(bytes);
    copy.set(at, 0);
    copy.set(at + 1, 0);
    proof {
        let after = crate::attributes::struck(bytes@, at as int);
        assert(copy@ =~= after);
        assert(forall|i: int| 0 <= i < 16 ==> after[i] == bytes@[i]);
        assert(after.skip(16) =~= crate::attributes::struck(bytes@.skip(16), at - 16));
    }
    let mut text: String = "cannot decode netlink message: ".to_owned();
    match parse_message(copy.as_slice(), order) {
        Err(reason) => text.append(reason.as_str()),
        Ok(_) => text.append("invalid IFLA_BAREUDP_SRCPORT_MIN value"),
    }
    invalid(text)
}

/// Decodes a message.
fn decode_message(bytes: &[u8], order: &HostOrder) -> (decoded: Result<Message, Error>)
    requires
        is_framed(bytes@, order.is_high_first()),
    ensures
        match decoded {
            Ok(message) => readable(bytes@, order.is_high_first()) is Ok && message@
                == message_in(bytes@, order.is_high_first()),
            Err(error) => readable(bytes@, order.is_high_first()) matches Err(reason) && error@
                == malformed("cannot decode netlink message: "@ + reason),
        },
{
    let payload: &[u8] = vstd::slice::slice_subrange(bytes, 16, bytes.len());
    assert(payload@ =~= bytes@.skip(16));
    let kind: u16 = u16_from(bytes, 4, order.high_first());
    if 16 <= kind && kind <= 19 {
        if let Checked::Fault(at) = check_link(payload, order) {
            return Err(refuse(bytes, at + 16, order));
        }
    }
    let raw: RawMessage = match parse_message(bytes, order) {
        Ok(raw) => raw,
        Err(reason) => {
            let mut text: String = "cannot decode netlink message: ".to_owned();
            text.append(reason.as_str());
            return Err(invalid(text));
        },
    };
    let body: Body = match raw.body {
        RawBody::NewLink => {
            let (index, fields): (u32, Vec<LinkField>) = parse_link(payload, order).unwrap();
            Body::NewLink(LinkRecord { index, fields })
        },
        RawBody::DelLink => Body::DelLink,
        RawBody::Done(code) => Body::Done(code),
        RawBody::Error(code) => Body::Error(code),
        RawBody::Overrun => Body::Overrun,
        RawBody::Noop => Body::Noop,
        RawBody::Other => Body::Other,
    };
    Ok(Message { sequence: raw.sequence, flags: raw.flags, body })
}

/// A failure to make sense of what was received.
pub open spec fn malformed(message: Seq<char>) -> crate::error::Report {
    crate::error::Report { kind: ErrorKind::InvalidData, message }
}

/// How many bytes stand between a message of this length and the next one.
pub open spec fn padding(length: int) -> int {
    (4 - length % 4) % 4
}

/// The messages that some bytes are made of, or why they are not. A message
/// begins with its length, and ends at a multiple of four bytes, except that
/// the last one need not.
pub open spec fn messages_in(bytes: Seq<u8>, high_first: bool) -> Result<
    Seq<MessageView>,
    crate::error::Report,
>
    decreases bytes.len(),
{
    if bytes.len() == 0 {
        Ok(seq![])
    } else if bytes.len() < NETLINK_HEADER_LENGTH {
        Err(malformed("trailing bytes after netlink message"@))
    } else {
        let length = crate::wire::u32_at(bytes, 0, high_first) as int;
        if length < NETLINK_HEADER_LENGTH || length > bytes.len() {
            Err(malformed("invalid netlink message length"@))
        } else {
            match readable(bytes.take(length), high_first) {
                Err(reason) => Err(malformed("cannot decode netlink message: "@ + reason)),
                Ok(_) => {
                    let first = message_in(bytes.take(length), high_first);
                    if length == bytes.len() {
                        Ok(seq![first])
                    } else if padding(length) > bytes.len() - length {
                        Err(malformed("truncated netlink message padding"@))
                    } else {
                        match messages_in(bytes.skip(length + padding(length)), high_first) {
                            Err(error) => Err(error),
                            Ok(others) => Ok(seq![first] + others),
                        }
                    }
                },
            }
        }
    }
}

/// What is made of messages once those before them are known.
spec fn preceded_by(
    first: Seq<MessageView>,
    rest: Result<Seq<MessageView>, crate::error::Report>,
) -> Result<Seq<MessageView>, crate::error::Report> {
    match rest {
        Ok(others) => Ok(first + others),
        Err(error) => Err(error),
    }
}

/// Decodes the message at an offset, and tells where the next one begins.
#[verifier::spinoff_prover]
#[verifier::rlimit(40)]
fn next_message(bytes: &[u8], offset: usize, order: &HostOrder) -> (decoded: Result<
    (Message, usize),
    Error,
>)
    requires
        offset < bytes@.len(),
    ensures
        match decoded {
            Ok((message, next)) => {
                &&& offset < next <= bytes@.len()
                &&& messages_in(bytes@.skip(offset as int), order.is_high_first()) == preceded_by(
                    seq![message@],
                    messages_in(bytes@.skip(next as int), order.is_high_first()),
                )
            },
            Err(error) => messages_in(bytes@.skip(offset as int), order.is_high_first()) == Err::<
                Seq<MessageView>,
                crate::error::Report,
            >(error@),
        },
{
    let ghost high_first = order.is_high_first();
    let ghost remaining = bytes@.skip(offset as int);
    let left: usize = bytes.len() - offset;
    if left < NETLINK_HEADER_LENGTH {
        return Err(invalid("trailing bytes after netlink message".to_owned()));
    }
    let length: usize = u32_from(bytes, offset, order.high_first()) as usize;
    assert(length == crate::wire::u32_at(remaining, 0, high_first));
    if length < NETLINK_HEADER_LENGTH || length > left {
        return Err(invalid("invalid netlink message length".to_owned()));
    }
    let frame: &[u8] = vstd::slice::slice_subrange(bytes, offset, offset + length);
    assert(frame@ =~= remaining.take(length as int));
    let message: Message = match decode_message(frame, order) {
        Ok(message) => message,
        Err(error) => {
            return Err(error);
        },
    };
    let ghost first = message@;
    if length == left {
        proof {
            assert(bytes@.skip(offset + length) =~= seq![]);
            assert(seq![first] + Seq::<MessageView>::empty() =~= seq![first]);
        }
        return Ok((message, offset + length));
    }
    let pad: usize = (4 - length % 4) % 4;
    if pad > left - length {
        return Err(invalid("truncated netlink message padding".to_owned()));
    }
    assert(remaining.skip(length + pad) =~= bytes@.skip(offset + length + pad));
    Ok((message, offset + length + pad))
}

/// Decodes the messages that some bytes are made of.
pub fn decode_datagram(bytes: &[u8], order: &HostOrder) -> (decoded: Result<Vec<Message>, Error>)
    ensures
        match decoded {
            Ok(messages) => messages_in(bytes@, order.is_high_first()) == Ok::<
                Seq<MessageView>,
                crate::error::Report,
            >(message_views(messages@)),
            Err(error) => messages_in(bytes@, order.is_high_first()) == Err::<
                Seq<MessageView>,
                crate::error::Report,
            >(error@),
        },
{
    let ghost high_first = order.is_high_first();
    let mut messages: Vec<Message> = Vec::new();
    let mut offset: usize = 0;
    proof {
        assert(bytes@.skip(0) =~= bytes@);
        if let Ok(all) = messages_in(bytes@, high_first) {
            assert(message_views(messages@) + all =~= all);
        }
    }
    while offset < bytes.len()
        invariant
            offset <= bytes@.len(),
            high_first == order.is_high_first(),
            messages_in(bytes@, high_first) == preceded_by(
                message_views(messages@),
                messages_in(bytes@.skip(offset as int), high_first),
            ),
        decreases bytes@.len() - offset,
    {
        let (message, next): (Message, usize) = match next_message(bytes, offset, order) {
            Ok(decoded) => decoded,
            Err(error) => {
                return Err(error);
            },
        };
        let ghost before = messages@;
        let ghost first = message@;
        messages.push(message);
        proof {
            assert(message_views(messages@) =~= message_views(before).push(first));
            if let Ok(others) = messages_in(bytes@.skip(next as int), high_first) {
                assert(message_views(before) + (seq![first] + others) =~= message_views(messages@)
                    + others);
            }
        }
        offset = next;
    }
    proof {
        assert(bytes@.skip(offset as int) =~= seq![]);
        assert(message_views(messages@) + Seq::<MessageView>::empty() =~= message_views(messages@));
    }
    Ok(messages)
}

/// What has been found so far of what a message says of an interface. Its data,
/// where it is that of a tunnel, is what the tunnel may go through.
pub struct FoundView {
    pub name: Option<Seq<char>>,
    pub controller: Option<u32>,
    pub lower: Option<u32>,
    pub lower_netnsid: Option<i32>,
    pub kind: Option<Seq<char>>,
    pub data: Option<Option<Seq<Option<u32>>>>,
}

/// Nothing found yet.
pub open spec fn nothing_found() -> FoundView {
    FoundView {
        name: None,
        controller: None,
        lower: None,
        lower_netnsid: None,
        kind: None,
        data: None,
    }
}

/// What is found once this is looked at as well, or the name of what is there
/// twice.
pub open spec fn with_info(found: FoundView, info: InfoFieldView) -> Result<FoundView, Seq<char>> {
    match info {
        InfoFieldView::Called(kind) => if found.kind is Some {
            Err("link kind"@)
        } else {
            Ok(FoundView { kind: Some(kind), ..found })
        },
        InfoFieldView::Tunnel(through) => if found.data is Some {
            Err("link data"@)
        } else {
            Ok(FoundView { data: Some(Some(through)), ..found })
        },
        InfoFieldView::OtherData => if found.data is Some {
            Err("link data"@)
        } else {
            Ok(FoundView { data: Some(None), ..found })
        },
        InfoFieldView::OtherInfo => Ok(found),
    }
}

/// What is found once the first `n` of these are looked at as well.
pub open spec fn with_infos(found: FoundView, infos: Seq<InfoFieldView>, n: int) -> Result<
    FoundView,
    Seq<char>,
>
    decreases n,
{
    if n <= 0 {
        Ok(found)
    } else {
        match with_infos(found, infos, n - 1) {
            Ok(before) => with_info(before, infos[n - 1]),
            Err(field) => Err(field),
        }
    }
}

/// What is found once this field is looked at as well, or the name of what is
/// there twice.
pub open spec fn with_field(found: FoundView, field: LinkFieldView) -> Result<
    FoundView,
    Seq<char>,
> {
    match field {
        LinkFieldView::Named(name) => if found.name is Some {
            Err("interface name"@)
        } else {
            Ok(FoundView { name: Some(name), ..found })
        },
        LinkFieldView::ControlledBy(index) => if found.controller is Some {
            Err("controller"@)
        } else {
            Ok(FoundView { controller: Some(index), ..found })
        },
        LinkFieldView::Above(index) => if found.lower is Some {
            Err("lower interface"@)
        } else {
            Ok(FoundView { lower: Some(index), ..found })
        },
        LinkFieldView::AboveNamespace(id) => if found.lower_netnsid is Some {
            Err("lower network namespace"@)
        } else {
            Ok(FoundView { lower_netnsid: Some(id), ..found })
        },
        LinkFieldView::Described(infos) => with_infos(found, infos, infos.len() as int),
        LinkFieldView::Unrelated => Ok(found),
    }
}

/// What the first `n` fields say, or the name of what is there twice.
pub open spec fn found_in(fields: Seq<LinkFieldView>, n: int) -> Result<FoundView, Seq<char>>
    decreases n,
{
    if n <= 0 {
        Ok(nothing_found())
    } else {
        match found_in(fields, n - 1) {
            Ok(before) => with_field(before, fields[n - 1]),
            Err(field) => Err(field),
        }
    }
}

/// What the first `n` of these say that a tunnel goes through, or the name of
/// what is there twice.
pub open spec fn tunnel_through(through: Seq<Option<u32>>, n: int) -> Result<
    Option<u32>,
    Seq<char>,
>
    decreases n,
{
    if n <= 0 {
        Ok(None)
    } else {
        match tunnel_through(through, n - 1) {
            Ok(before) => match through[n - 1] {
                None => Ok(before),
                Some(index) => if before is Some {
                    Err("VXLAN underlay"@)
                } else {
                    Ok(Some(index))
                },
            },
            Err(field) => Err(field),
        }
    }
}

/// The kind of interface that a text names.
pub open spec fn kind_named(kind: Option<Seq<char>>) -> LinkKind {
    match kind {
        None => LinkKind::Other,
        Some(text) => if text == "bond"@ {
            LinkKind::Bond
        } else if text == "bridge"@ {
            LinkKind::Bridge
        } else if text == "vlan"@ {
            LinkKind::Vlan
        } else if text == "macvlan"@ {
            LinkKind::MacVlan
        } else if text == "ipvlan"@ {
            LinkKind::IpVlan
        } else if text == "macvtap"@ {
            LinkKind::MacVtap
        } else if text == "vxlan"@ {
            LinkKind::Vxlan
        } else if text == "veth"@ {
            LinkKind::Veth
        } else {
            LinkKind::Other
        },
    }
}

/// The failure that something is there twice.
pub open spec fn duplicate(field: Seq<char>) -> crate::error::Report {
    malformed("duplicate "@ + field)
}

/// The interface that a message tells of, or why it tells of none.
pub open spec fn observed_in(record: LinkRecordView) -> Result<
    ObservedView,
    crate::error::Report,
> {
    match found_in(record.fields, record.fields.len() as int) {
        Err(field) => Err(duplicate(field)),
        Ok(found) => {
            let through = match found.data {
                Some(Some(through)) => tunnel_through(through, through.len() as int),
                _ => Ok(None),
            };
            match through {
                Err(field) => Err(duplicate(field)),
                Ok(vxlan_lower) => match found.name {
                    None => Err(malformed("interface has no name"@)),
                    Some(name) => Ok(
                        ObservedView {
                            index: record.index,
                            name,
                            kind: kind_named(found.kind),
                            controller: found.controller,
                            lower: found.lower,
                            lower_netnsid: found.lower_netnsid,
                            vxlan_lower,
                        },
                    ),
                },
            }
        },
    }
}

/// What has been found so far of what a message says of an interface.
struct Found<'a> {
    name: Option<&'a String>,
    controller: Option<u32>,
    lower: Option<u32>,
    lower_netnsid: Option<i32>,
    kind: Option<&'a String>,
    data: Option<Option<&'a Vec<Option<u32>>>>,
}

impl<'a> View for Found<'a> {
    type V = FoundView;

    closed spec fn view(&self) -> FoundView {
        FoundView {
            name: match self.name {
                Some(name) => Some(name@),
                None => None,
            },
            controller: self.controller,
            lower: self.lower,
            lower_netnsid: self.lower_netnsid,
            kind: match self.kind {
                Some(kind) => Some(kind@),
                None => None,
            },
            data: match self.data {
                Some(Some(through)) => Some(Some(through@)),
                Some(None) => Some(None),
                None => None,
            },
        }
    }
}

/// Fills a slot that is still empty.
pub fn set_once<T>(slot: &mut Option<T>, value: T, field: &str) -> (set: Result<(), Error>)
    ensures
        *final(slot) == Some(value),
        match set {
            Ok(()) => *old(slot) is None,
            Err(error) => *old(slot) is Some && error@ == duplicate(field@),
        },
{
    let taken: bool = slot.is_some();
    *slot = Some(value);
    if taken {
        let mut text: String = "duplicate ".to_owned();
        text.append(field);
        return Err(invalid(text));
    }
    Ok(())
}

/// Looks at something that a message says of what kind an interface is.
fn take_info<'a>(found: &mut Found<'a>, info: &'a InfoField) -> (taken: Result<(), Error>)
    ensures
        match taken {
            Ok(()) => with_info(old(found)@, info@) == Ok::<FoundView, Seq<char>>(final(found)@),
            Err(error) => with_info(old(found)@, info@) matches Err(field) && error@ == duplicate(
                field,
            ),
        },
{
    match info {
        InfoField::Called(kind) => set_once(&mut found.kind, kind, "link kind"),
        InfoField::Tunnel(through) => set_once(&mut found.data, Some(through), "link data"),
        InfoField::OtherData => set_once(&mut found.data, None, "link data"),
        InfoField::OtherInfo => Ok(()),
    }
}

/// Looks at all that a field says of what kind an interface is.
fn take_infos<'a>(found: &mut Found<'a>, infos: &'a Vec<InfoField>) -> (taken: Result<(), Error>)
    ensures
        match taken {
            Ok(()) => with_infos(
                old(found)@,
                infos@.map_values(|info: InfoField| info@),
                infos@.len() as int,
            ) == Ok::<FoundView, Seq<char>>(final(found)@),
            Err(error) => with_infos(
                old(found)@,
                infos@.map_values(|info: InfoField| info@),
                infos@.len() as int,
            ) matches Err(field) && error@ == duplicate(field),
        },
{
    let ghost views = infos@.map_values(|info: InfoField| info@);
    let ghost before = found@;
    let mut i: usize = 0;
    while i < infos.len()
        invariant
            i <= infos@.len(),
            views == infos@.map_values(|info: InfoField| info@),
            with_infos(before, views, i as int) == Ok::<FoundView, Seq<char>>(found@),
            before == old(found)@,
        decreases infos@.len() - i,
    {
        assert(views[i as int] == infos@[i as int]@);
        match take_info(found, &infos[i]) {
            Ok(()) => {},
            Err(error) => {
                proof {
                    lemma_infos_kept(before, views, i + 1, infos@.len() as int);
                }
                return Err(error);
            },
        }
        i = i + 1;
    }
    Ok(())
}

proof fn lemma_infos_kept(found: FoundView, infos: Seq<InfoFieldView>, n: int, m: int)
    requires
        0 <= n <= m,
        with_infos(found, infos, n) is Err,
    ensures
        with_infos(found, infos, m) == with_infos(found, infos, n),
    decreases m,
{
    if n < m {
        lemma_infos_kept(found, infos, n, m - 1);
    }
}

/// Looks at a field.
fn take_field<'a>(found: &mut Found<'a>, field: &'a LinkField) -> (taken: Result<(), Error>)
    ensures
        match taken {
            Ok(()) => with_field(old(found)@, field@) == Ok::<FoundView, Seq<char>>(final(found)@),
            Err(error) => with_field(old(found)@, field@) matches Err(name) && error@ == duplicate(
                name,
            ),
        },
{
    match field {
        LinkField::Named(name) => set_once(&mut found.name, name, "interface name"),
        LinkField::ControlledBy(index) => set_once(&mut found.controller, *index, "controller"),
        LinkField::Above(index) => set_once(&mut found.lower, *index, "lower interface"),
        LinkField::AboveNamespace(id) => {
            set_once(&mut found.lower_netnsid, *id, "lower network namespace")
        },
        LinkField::Described(infos) => take_infos(found, infos),
        LinkField::Unrelated => Ok(()),
    }
}

proof fn lemma_fields_kept(fields: Seq<LinkFieldView>, n: int, m: int)
    requires
        0 <= n <= m,
        found_in(fields, n) is Err,
    ensures
        found_in(fields, m) == found_in(fields, n),
    decreases m,
{
    if n < m {
        lemma_fields_kept(fields, n, m - 1);
    }
}

/// What a tunnel goes through.
fn read_tunnel(through: &Vec<Option<u32>>) -> (read: Result<Option<u32>, Error>)
    ensures
        match read {
            Ok(index) => tunnel_through(through@, through@.len() as int) == Ok::<
                Option<u32>,
                Seq<char>,
            >(index),
            Err(error) => tunnel_through(through@, through@.len() as int) matches Err(field)
                && error@ == duplicate(field),
        },
{
    let mut result: Option<u32> = None;
    let mut i: usize = 0;
    while i < through.len()
        invariant
            i <= through@.len(),
            tunnel_through(through@, i as int) == Ok::<Option<u32>, Seq<char>>(result),
        decreases through@.len() - i,
    {
        if let Some(index) = through[i] {
            match set_once(&mut result, index, "VXLAN underlay") {
                Ok(()) => {},
                Err(error) => {
                    proof {
                        lemma_tunnel_kept(through@, i + 1, through@.len() as int);
                    }
                    return Err(error);
                },
            }
        }
        i = i + 1;
    }
    Ok(result)
}

proof fn lemma_tunnel_kept(through: Seq<Option<u32>>, n: int, m: int)
    requires
        0 <= n <= m,
        tunnel_through(through, n) is Err,
    ensures
        tunnel_through(through, m) == tunnel_through(through, n),
    decreases m,
{
    if n < m {
        lemma_tunnel_kept(through, n, m - 1);
    }
}

/// The kind of interface that a text names.
fn read_kind(kind: Option<&String>) -> (read: LinkKind)
    ensures
        read == kind_named(
            match kind {
                Some(text) => Some(text@),
                None => None,
            },
        ),
{
    match kind {
        None => LinkKind::Other,
        Some(text) => {
            if *text == "bond".to_owned() {
                LinkKind::Bond
            } else if *text == "bridge".to_owned() {
                LinkKind::Bridge
            } else if *text == "vlan".to_owned() {
                LinkKind::Vlan
            } else if *text == "macvlan".to_owned() {
                LinkKind::MacVlan
            } else if *text == "ipvlan".to_owned() {
                LinkKind::IpVlan
            } else if *text == "macvtap".to_owned() {
                LinkKind::MacVtap
            } else if *text == "vxlan".to_owned() {
                LinkKind::Vxlan
            } else if *text == "veth".to_owned() {
                LinkKind::Veth
            } else {
                LinkKind::Other
            }
        },
    }
}

/// Decodes what a message says of an interface. Nothing may be said twice, and
/// the interface needs a name.
pub fn decode_link(record: &LinkRecord) -> (decoded: Result<ObservedLink, Error>)
    ensures
        match decoded {
            Ok(link) => observed_in(record@) == Ok::<ObservedView, crate::error::Report>(link@),
            Err(error) => observed_in(record@) == Err::<ObservedView, crate::error::Report>(
                error@,
            ),
        },
{
    let ghost fields = record@.fields;
    let mut found: Found = Found {
        name: None,
        controller: None,
        lower: None,
        lower_netnsid: None,
        kind: None,
        data: None,
    };
    let mut i: usize = 0;
    while i < record.fields.len()
        invariant
            i <= record.fields@.len(),
            fields == record@.fields,
            found_in(fields, i as int) == Ok::<FoundView, Seq<char>>(found@),
        decreases record.fields@.len() - i,
    {
        assert(fields[i as int] == record.fields@[i as int]@);
        match take_field(&mut found, &record.fields[i]) {
            Ok(()) => {},
            Err(error) => {
                proof {
                    lemma_fields_kept(fields, i + 1, fields.len() as int);
                }
                return Err(error);
            },
        }
        i = i + 1;
    }
    let vxlan_lower: Option<u32> = match found.data {
        Some(Some(through)) => match read_tunnel(through) {
            Ok(index) => index,
            Err(error) => {
                return Err(error);
            },
        },
        _ => None,
    };
    match found.name {
        None => Err(invalid("interface has no name".to_owned())),
        Some(name) => Ok(
            ObservedLink {
                index: record.index,
                name: name.clone(),
                kind: read_kind(found.kind),
                controller: found.controller,
                lower: found.lower,
                lower_netnsid: found.lower_netnsid,
                vxlan_lower,
            },
        ),
    }
}

/// A failure of no particular class.
pub open spec fn failure(message: Seq<char>) -> crate::error::Report {
    crate::error::Report { kind: ErrorKind::Other, message }
}

/// Why an answer to a request for an inventory is refused: for a reason of this
/// crate, or because the kernel reports the error with this number.
pub enum DumpFault {
    Report(crate::error::Report),
    System(i32),
}

/// What an accepted message of an inventory is: an interface, or the end.
pub enum DumpEvent {
    Link(ObservedView),
    End,
}

/// What a message of an inventory is, or why it is refused. The inventory ends
/// with the last message of an answer, and not before.
pub open spec fn dump_event(message: MessageView, sequence: u32, last: bool) -> Result<
    DumpEvent,
    DumpFault,
> {
    if message.sequence != sequence {
        Err(
            DumpFault::Report(
                malformed("interface inventory response sequence did not match its request"@),
            ),
        )
    } else if message.flags & NLM_F_DUMP_INTR != 0 {
        Err(DumpFault::Report(failure("interface inventory dump was interrupted"@)))
    } else {
        match message.body {
            BodyView::NewLink(record) => match observed_in(record) {
                Ok(link) => Ok(DumpEvent::Link(link)),
                Err(report) => Err(DumpFault::Report(report)),
            },
            BodyView::Done(code) => if code != 0 {
                Err(
                    DumpFault::Report(
                        failure("interface inventory completion reported an error"@),
                    ),
                )
            } else if last {
                Ok(DumpEvent::End)
            } else {
                Err(
                    DumpFault::Report(
                        malformed("interface inventory continued after completion"@),
                    ),
                )
            },
            BodyView::Error(code) => Err(DumpFault::System(code)),
            BodyView::Overrun => Err(
                DumpFault::Report(failure("interface inventory socket reported overrun"@)),
            ),
            _ => Err(DumpFault::Report(malformed("unexpected interface inventory message"@))),
        }
    }
}

/// What the first `n` messages of an answer amount to: whether the inventory has
/// ended, and the interfaces that they tell of; or why they are refused.
pub open spec fn dump_of(messages: Seq<MessageView>, sequence: u32, n: int) -> Result<
    (bool, Seq<ObservedView>),
    DumpFault,
>
    decreases n,
{
    if n <= 0 {
        Ok((false, seq![]))
    } else {
        match dump_of(messages, sequence, n - 1) {
            Err(fault) => Err(fault),
            Ok((_, links)) => match dump_event(messages[n - 1], sequence, n == messages.len()) {
                Err(fault) => Err(fault),
                Ok(DumpEvent::Link(link)) => Ok((false, links.push(link))),
                Ok(DumpEvent::End) => Ok((true, links)),
            },
        }
    }
}

/// What an answer to a request for an inventory amounts to.
pub open spec fn dump_in(bytes: Seq<u8>, high_first: bool, sequence: u32) -> Result<
    (bool, Seq<ObservedView>),
    DumpFault,
> {
    match messages_in(bytes, high_first) {
        Err(report) => Err(DumpFault::Report(report)),
        Ok(messages) => dump_of(messages, sequence, messages.len() as int),
    }
}

/// Whether an error is the one that a fault leads to. The kernel reports an error by
/// its number with the sign changed; the lowest number is that of no error. What
/// the system has to say of an error is left to the system.
pub open spec fn fault_is(error: Error, fault: DumpFault) -> bool {
    match fault {
        DumpFault::Report(report) => error@ == report,
        DumpFault::System(code) => if code == i32::MIN {
            error@ == failure("unknown netlink error"@)
        } else {
            &&& error@.kind == ErrorKind::System(magnitude(code))
            &&& system_says(code, error@.message)
        },
    }
}

/// A number without its sign.
pub open spec fn magnitude(code: i32) -> i32 {
    if code < 0 {
        (-code) as i32
    } else {
        code
    }
}

/// Whether this may be what the system says of the error that the kernel reports
/// by this number.
pub closed spec fn system_says(code: i32, text: Seq<char>) -> bool {
    exists|said: String| #[trigger]
        call_ensures(system_error_text, (code,), said) && said@ == text
}

/// The values of a list of interfaces.
pub open spec fn link_views(links: Seq<ObservedLink>) -> Seq<ObservedView> {
    links.map_values(|link: ObservedLink| link@)
}

/// Calls `ErrorMessage::to_io` from `netlink_packet_core`, and hands out the text of
/// the error. The text is what the system says of the error with this number; it
/// may differ from system to system. The call takes the absolute value of the
/// number, which the lowest number does not have.
#[verifier::external_body]
fn system_error_text(code: i32) -> (text: String)
    requires
        code != i32::MIN,
{
    let mut message = netlink_packet_core::ErrorMessage::default();
    message.code = std::num::NonZeroI32::new(code);
    message.to_io().to_string()
}

/// The error that the kernel reports by a number.
fn system_error(code: i32) -> (error: Error)
    ensures
        fault_is(error, DumpFault::System(code)),
{
    if code == i32::MIN {
        return other("unknown netlink error".to_owned());
    }
    let number: i32 = if code < 0 {
        -code
    } else {
        code
    };
    Error { kind: ErrorKind::System(number), message: system_error_text(code) }
}

pub(crate) proof fn lemma_dump_kept(messages: Seq<MessageView>, sequence: u32, n: int, m: int)
    requires
        0 <= n <= m,
        dump_of(messages, sequence, n) is Err,
    ensures
        dump_of(messages, sequence, m) == dump_of(messages, sequence, n),
    decreases m,
{
    if n < m {
        lemma_dump_kept(messages, sequence, n, m - 1);
    }
}

/// What a message of an inventory is, or the error that it leads to.
fn dump_message(message: &Message, sequence: u32, last: bool) -> (read: Result<
    Option<ObservedLink>,
    Error,
>)
    ensures
        match read {
            Ok(Some(link)) => dump_event(message@, sequence, last) == Ok::<DumpEvent, DumpFault>(
                DumpEvent::Link(link@),
            ),
            Ok(None) => dump_event(message@, sequence, last) == Ok::<DumpEvent, DumpFault>(
                DumpEvent::End,
            ),
            Err(error) => dump_event(message@, sequence, last) matches Err(fault) && fault_is(
                error,
                fault,
            ),
        },
{
    if message.sequence != sequence {
        return Err(
            invalid(
                "interface inventory response sequence did not match its request".to_owned(),
            ),
        );
    }
    if message.flags & NLM_F_DUMP_INTR != 0 {
        return Err(other("interface inventory dump was interrupted".to_owned()));
    }
    match &message.body {
        Body::NewLink(record) => match decode_link(record) {
            Ok(link) => Ok(Some(link)),
            Err(error) => Err(error),
        },
        Body::Done(code) => {
            if *code != 0 {
                Err(other("interface inventory completion reported an error".to_owned()))
            } else if last {
                Ok(None)
            } else {
                Err(invalid("interface inventory continued after completion".to_owned()))
            }
        },
        Body::Error(code) => Err(system_error(*code)),
        Body::Overrun => Err(other("interface inventory socket reported overrun".to_owned())),
        _ => Err(invalid("unexpected interface inventory message".to_owned())),
    }
}

/// Takes over the interfaces that an answer to a request for an inventory tells
/// of, and says whether the inventory has ended.
pub fn consume_dump(
    bytes: &[u8],
    order: &HostOrder,
    sequence: u32,
    links: &mut Vec<ObservedLink>,
) -> (consumed: Result<bool, Error>)
    ensures
        match consumed {
            Ok(ended) => dump_in(bytes@, order.is_high_first(), sequence) matches Ok((end, found))
                && end == ended && link_views(final(links)@) == link_views(old(links)@) + found,
            Err(error) => dump_in(bytes@, order.is_high_first(), sequence) matches Err(fault)
                && fault_is(error, fault),
        },
{
    let messages: Vec<Message> = match decode_datagram(bytes, order) {
        Ok(messages) => messages,
        Err(error) => {
            return Err(error);
        },
    };
    let ghost views = message_views(messages@);
    let ghost before = link_views(links@);
    let ghost mut found = Seq::<ObservedView>::empty();
    let ghost high_first = order.is_high_first();
    assert(before + found =~= before);
    let mut ended: bool = false;
    let mut i: usize = 0;
    while i < messages.len()
        invariant
            i <= messages@.len(),
            views == message_views(messages@),
            messages_in(bytes@, high_first) == Ok::<Seq<MessageView>, crate::error::Report>(views),
            high_first == order.is_high_first(),
            dump_of(views, sequence, i as int) == Ok::<(bool, Seq<ObservedView>), DumpFault>(
                (ended, found),
            ),
            before == link_views(old(links)@),
            link_views(links@) == before + found,
        decreases messages@.len() - i,
    {
        assert(views[i as int] == messages@[i as int]@);
        match dump_message(&messages[i], sequence, i + 1 == messages.len()) {
            Ok(Some(link)) => {
                let ghost earlier = links@;
                let ghost view = link@;
                links.push(link);
                ended = false;
                proof {
                    assert(link_views(links@) =~= link_views(earlier).push(view));
                    assert((before + found).push(view) =~= before + found.push(view));
                    found = found.push(view);
                }
            },
            Ok(None) => {
                ended = true;
            },
            Err(error) => {
                proof {
                    lemma_dump_kept(views, sequence, i + 1, views.len() as int);
                }
                return Err(error);
            },
        }
        i = i + 1;
    }
    Ok(ended)
}

/// What was received in one piece.
#[derive(Debug)]
pub struct Datagram {
    pub bytes: Vec<u8>,
    pub from_kernel: bool,
    pub truncated: bool,
}

impl Datagram {
    /// What was received into a buffer: the sender's number, and how long it was
    /// before it was cut to the length of the buffer. The kernel's number is zero.
    pub fn received(buffer: Vec<u8>, size: usize, sender: u32) -> (datagram: Self)
        ensures
            datagram.truncated <==> size > buffer@.len(),
            datagram.from_kernel <==> sender == 0,
            datagram.bytes@ == if size > buffer@.len() {
                buffer@
            } else {
                buffer@.take(size as int)
            },
    {
        let truncated: bool = size > buffer.len();
        let mut bytes: Vec<u8> = buffer;
        if !truncated {
            bytes.truncate(size);
        }
        assert(!truncated ==> bytes@ =~= buffer@.take(size as int));
        Self { bytes, from_kernel: sender == 0, truncated }
    }
}

/// Checks that a request was sent as a whole.
pub fn check_sent(written: usize, length: usize) -> (checked: Result<(), Error>)
    ensures
        match checked {
            Ok(()) => written == length,
            Err(error) => written != length && error@ == (crate::error::Report {
                kind: ErrorKind::WriteZero,
                message: "partial netlink request write"@,
            }),
        },
{
    if written == length {
        return Ok(());
    }
    Err(
        Error {
            kind: ErrorKind::WriteZero,
            message: "partial netlink request write".to_owned(),
        },
    )
}

/// How many milliseconds to wait for sockets: enough for the span, or as many as
/// a wait can take.
pub fn poll_millis(remaining: Span) -> (millis: i32)
    ensures
        0 <= millis,
        millis < i32::MAX ==> (millis - 1) * 1_000_000 < remaining.nanos <= millis * 1_000_000,
        millis == i32::MAX ==> remaining.nanos > (i32::MAX - 1) * 1_000_000,
{
    let whole: u128 = remaining.nanos / 1_000_000;
    let millis: u128 = if remaining.nanos % 1_000_000 != 0 {
        whole + 1
    } else {
        whole
    };
    if millis >= i32::MAX as u128 {
        i32::MAX
    } else {
        millis as i32
    }
}

/// What a wait for sockets ended with.
#[derive(Clone, Copy, Debug, PartialEq, Eq, Structural)]
pub struct Ready {
    pub notification: bool,
    pub dump: bool,
    pub notification_failed: bool,
    pub dump_failed: bool,
    pub shutdown: bool,
}

impl Default for Ready {
    /// Nothing is ready.
    fn default() -> (ready: Self)
        ensures
            ready == (Ready {
                notification: false,
                dump: false,
                notification_failed: false,
                dump_failed: false,
                shutdown: false,
            }),
    {
        Self {
            notification: false,
            dump: false,
            notification_failed: false,
            dump_failed: false,
            shutdown: false,
        }
    }
}

/// The mark of a socket from which something can be received.
pub const POLLIN: i16 = 1;

/// The mark of a socket with an error that can be received.
pub const POLLERR: i16 = 8;

/// The mark of a socket whose other end is gone.
pub const POLLHUP: i16 = 16;

/// The mark of a socket that is not open.
pub const POLLNVAL: i16 = 32;

/// What a wait ended with by the marks of the sockets, zero where there is none.
pub fn readiness(notification: i16, dump: i16) -> (ready: Ready)
    ensures
        ready == (Ready {
            notification: notification & POLLIN != 0 || notification & POLLERR != 0,
            dump: dump & POLLIN != 0 || dump & POLLERR != 0,
            notification_failed: notification & POLLHUP != 0 || notification & POLLNVAL != 0,
            dump_failed: dump & POLLHUP != 0 || dump & POLLNVAL != 0,
            shutdown: false,
        }),
{
    Ready {
        notification: notification & POLLIN != 0 || notification & POLLERR != 0,
        dump: dump & POLLIN != 0 || dump & POLLERR != 0,
        notification_failed: notification & POLLHUP != 0 || notification & POLLNVAL != 0,
        dump_failed: dump & POLLHUP != 0 || dump & POLLNVAL != 0,
        shutdown: false,
    }
}

/// Sockets to the kernel, and the time.
pub trait DatagramIo {
    type Socket;

    /// Opens a socket that gets the notifications of these groups.
    fn open(&mut self, groups: u32) -> Result<Self::Socket, Error>;

    /// Sends a request.
    fn send(&mut self, socket: &Self::Socket, bytes: &[u8]) -> Result<(), Error>;

    /// Waits until something can be received, but no longer than `timeout`.
    fn wait(
        &mut self,
        notification: &Self::Socket,
        dump: Option<&Self::Socket>,
        timeout: Span,
    ) -> Result<Ready, Error>;

    /// Receives what there is.
    fn receive(&mut self, socket: &Self::Socket) -> Result<Datagram, Error>;

    /// The time since a fixed start.
    fn now(&self) -> Span;

    /// Does nothing for this long.
    fn sleep(&mut self, duration: Span);
}

/// Whether the first `n` messages of a notification tell of a change, or why they
/// are refused.
pub open spec fn change_of(messages: Seq<MessageView>, n: int) -> Result<
    bool,
    crate::error::Report,
>
    decreases n,
{
    if n <= 0 {
        Ok(false)
    } else {
        match change_of(messages, n - 1) {
            Err(report) => Err(report),
            Ok(changed) => if messages[n - 1].sequence != 0 {
                Err(malformed("link notification carried a response sequence"@))
            } else {
                match messages[n - 1].body {
                    BodyView::NewLink(_) => Ok(true),
                    BodyView::DelLink => Ok(true),
                    BodyView::Overrun => Err(
                        failure("link notification socket reported overrun"@),
                    ),
                    BodyView::Noop => Ok(changed),
                    _ => Err(malformed("unexpected link notification message"@)),
                }
            },
        }
    }
}

/// Whether a notification tells of a change, or why it is refused.
pub open spec fn change_in(
    bytes: Seq<u8>,
    from_kernel: bool,
    truncated: bool,
    high_first: bool,
) -> Result<bool, crate::error::Report> {
    if truncated {
        Err(malformed("link notification datagram was truncated"@))
    } else if !from_kernel {
        Err(malformed("link notification came from a non-kernel sender"@))
    } else if bytes.len() == 0 {
        Err(
            crate::error::Report {
                kind: ErrorKind::UnexpectedEof,
                message: "link notification socket terminated"@,
            },
        )
    } else {
        match messages_in(bytes, high_first) {
            Err(report) => Err(report),
            Ok(messages) => change_of(messages, messages.len() as int),
        }
    }
}

pub(crate) proof fn lemma_change_kept(messages: Seq<MessageView>, n: int, m: int)
    requires
        0 <= n <= m,
        change_of(messages, n) is Err,
    ensures
        change_of(messages, m) == change_of(messages, n),
    decreases m,
{
    if n < m {
        lemma_change_kept(messages, n, m - 1);
    }
}

/// Whether a notification tells of a change.
pub fn read_notification(datagram: &Datagram, order: &HostOrder) -> (read: Result<bool, Error>)
    ensures
        match read {
            Ok(changed) => change_in(
                datagram.bytes@,
                datagram.from_kernel,
                datagram.truncated,
                order.is_high_first(),
            ) == Ok::<bool, crate::error::Report>(changed),
            Err(error) => change_in(
                datagram.bytes@,
                datagram.from_kernel,
                datagram.truncated,
                order.is_high_first(),
            ) == Err::<bool, crate::error::Report>(error@),
        },
{
    if datagram.truncated {
        return Err(invalid("link notification datagram was truncated".to_owned()));
    }
    if !datagram.from_kernel {
        return Err(invalid("link notification came from a non-kernel sender".to_owned()));
    }
    if datagram.bytes.len() == 0 {
        return Err(
            Error {
                kind: ErrorKind::UnexpectedEof,
                message: "link notification socket terminated".to_owned(),
            },
        );
    }
    let messages: Vec<Message> = match decode_datagram(datagram.bytes.as_slice(), order) {
        Ok(messages) => messages,
        Err(error) => {
            return Err(error);
        },
    };
    let ghost views = message_views(messages@);
    let ghost high_first = order.is_high_first();
    let mut changed: bool = false;
    let mut i: usize = 0;
    while i < messages.len()
        invariant
            i <= messages@.len(),
            views == message_views(messages@),
            high_first == order.is_high_first(),
            !datagram.truncated,
            datagram.from_kernel,
            datagram.bytes@.len() > 0,
            messages_in(datagram.bytes@, high_first) == Ok::<
                Seq<MessageView>,
                crate::error::Report,
            >(views),
            change_of(views, i as int) == Ok::<bool, crate::error::Report>(changed),
        decreases messages@.len() - i,
    {
        assert(views[i as int] == messages@[i as int]@);
        proof {
            if change_of(views, i + 1) is Err {
                lemma_change_kept(views, i + 1, views.len() as int);
            }
        }
        if messages[i].sequence != 0 {
            return Err(invalid("link notification carried a response sequence".to_owned()));
        }
        match &messages[i].body {
            Body::NewLink(_) => {
                changed = true;
            },
            Body::DelLink => {
                changed = true;
            },
            Body::Overrun => {
                return Err(other("link notification socket reported overrun".to_owned()));
            },
            Body::Noop => {},
            _ => {
                return Err(invalid("unexpected link notification message".to_owned()));
            },
        }
        i = i + 1;
    }
    Ok(changed)
}

/// The most that all answers to one request for an inventory may take up.
pub const MAX_INVENTORY_BYTES: usize = 16_777_216;

/// How long an inventory may take, in seconds.
pub const INVENTORY_TIMEOUT_SECS: u64 = 3;

/// The group of notifications that tell of interfaces.
pub const LINK_MULTICAST_GROUP: u32 = 1;

/// An inventory that is being taken.
#[derive(Debug)]
pub struct Dump {
    pub sequence: u32,
    pub links: Vec<ObservedLink>,
    pub total: usize,
    pub events: EventBatch,
}

/// The batch without any change.
pub open spec fn no_events() -> EventBatch {
    EventBatch { first: None, last: None }
}

/// The batch with one more change.
pub open spec fn with_event(events: EventBatch, at: Span) -> EventBatch {
    EventBatch {
        first: match events.first {
            Some(first) => Some(first),
            None => Some(at),
        },
        last: Some(at),
    }
}

/// What an answer to the request for an inventory amounts to, after answers of
/// `total` bytes; or why it is refused.
pub open spec fn answer_in(
    bytes: Seq<u8>,
    from_kernel: bool,
    truncated: bool,
    high_first: bool,
    sequence: u32,
    total: int,
) -> Result<(bool, Seq<ObservedView>), DumpFault> {
    if truncated {
        Err(DumpFault::Report(malformed("interface inventory datagram was truncated"@)))
    } else if !from_kernel || bytes.len() == 0 {
        Err(
            DumpFault::Report(
                malformed("invalid interface inventory sender or termination"@),
            ),
        )
    } else if total + bytes.len() > MAX_INVENTORY_BYTES {
        Err(DumpFault::Report(malformed("interface inventory exceeded its byte limit"@)))
    } else {
        dump_in(bytes, high_first, sequence)
    }
}

impl Dump {
    /// The inventory that is asked for by the request with this number.
    pub fn new(sequence: u32) -> (dump: Self)
        ensures
            dump.sequence == sequence,
            dump.links@ == Seq::<ObservedLink>::empty(),
            dump.total == 0,
            dump.events == (EventBatch { first: None, last: None }),
    {
        Self { sequence, links: Vec::new(), total: 0, events: EventBatch::default() }
    }

    /// Notes a change during the inventory.
    pub fn note_event(&mut self, at: Span)
        ensures
            final(self).events == with_event(old(self).events, at),
            final(self).sequence == old(self).sequence,
            final(self).links == old(self).links,
            final(self).total == old(self).total,
    {
        let first: Option<Span> = match self.events.first {
            Some(first) => Some(first),
            None => Some(at),
        };
        self.events = EventBatch { first, last: Some(at) };
    }

    /// Takes over an answer, and says whether the inventory has ended.
    pub fn take(&mut self, datagram: &Datagram, order: &HostOrder) -> (taken: Result<bool, Error>)
        ensures
            final(self).sequence == old(self).sequence,
            final(self).events == old(self).events,
            match taken {
                Ok(ended) => answer_in(
                    datagram.bytes@,
                    datagram.from_kernel,
                    datagram.truncated,
                    order.is_high_first(),
                    old(self).sequence,
                    old(self).total as int,
                ) matches Ok((end, found)) && {
                    &&& end == ended
                    &&& link_views(final(self).links@) == link_views(old(self).links@) + found
                    &&& final(self).total == old(self).total + datagram.bytes@.len()
                    &&& final(self).total <= MAX_INVENTORY_BYTES
                },
                Err(error) => answer_in(
                    datagram.bytes@,
                    datagram.from_kernel,
                    datagram.truncated,
                    order.is_high_first(),
                    old(self).sequence,
                    old(self).total as int,
                ) matches Err(fault) && fault_is(error, fault),
            },
    {
        if datagram.truncated {
            return Err(invalid("interface inventory datagram was truncated".to_owned()));
        }
        if !datagram.from_kernel || datagram.bytes.len() == 0 {
            return Err(invalid("invalid interface inventory sender or termination".to_owned()));
        }
        if self.total > MAX_INVENTORY_BYTES || datagram.bytes.len() > MAX_INVENTORY_BYTES
            - self.total {
            return Err(invalid("interface inventory exceeded its byte limit".to_owned()));
        }
        self.total = self.total + datagram.bytes.len();
        consume_dump(datagram.bytes.as_slice(), order, self.sequence, &mut self.links)
    }
}

/// What an inventory that is being taken has gathered so far.
pub struct Gathered {
    pub links: Seq<ObservedView>,
    pub total: int,
    pub events: EventBatch,
}

/// What has been gathered before anything was received.
pub open spec fn nothing_gathered() -> Gathered {
    Gathered { links: seq![], total: 0, events: no_events() }
}

/// The changes that have come, with the one that a notification tells of.
pub open spec fn noted(
    events: EventBatch,
    notified: Option<Result<Option<Span>, Error>>,
) -> EventBatch {
    match notified {
        Some(Ok(Some(at))) => with_event(events, at),
        _ => events,
    }
}

impl Gathered {
    /// What an answer amounts to after what has been gathered, or why it is refused.
    pub open spec fn answered(self, datagram: Datagram, high_first: bool, sequence: u32) -> Result<
        (bool, Seq<ObservedView>),
        DumpFault,
    > {
        answer_in(
            datagram.bytes@,
            datagram.from_kernel,
            datagram.truncated,
            high_first,
            sequence,
            self.total,
        )
    }

    /// What has been gathered after another turn.
    pub open spec fn with_turn(
        self,
        notified: Option<Result<Option<Span>, Error>>,
        answer: Option<Result<Datagram, Error>>,
        high_first: bool,
        sequence: u32,
    ) -> Gathered {
        let events = noted(self.events, notified);
        match answer {
            Some(Ok(datagram)) => match self.answered(datagram, high_first, sequence) {
                Ok((ended, found)) => Gathered {
                    links: self.links + found,
                    total: self.total + datagram.bytes@.len(),
                    events,
                },
                Err(_) => Gathered { events, ..self },
            },
            _ => Gathered { events, ..self },
        }
    }

    /// Whether a turn ends like this, by what came of the wait, of the reception
    /// of a notification, and of the reception of an answer. Trouble with the
    /// notifications is a loss; all other trouble is not. Both come with the changes
    /// that have come until then.
    pub open spec fn turns(
        self,
        waited: Result<Ready, Error>,
        notified: Option<Result<Option<Span>, Error>>,
        answer: Option<Result<Datagram, Error>>,
        high_first: bool,
        sequence: u32,
        turn: Turn,
    ) -> bool {
        let events = noted(self.events, notified);
        match (waited, notified, answer) {
            (Err(reason), _, _) => turn == Turn::Failed(
                AcquisitionError::Lost { error: reason, events: self.events },
            ),
            (Ok(ready), _, _) if ready.notification_failed => failed_as(
                turn,
                true,
                failure("link notification socket failed"@),
                self.events,
            ),
            (Ok(ready), _, _) if ready.dump_failed => failed_as(
                turn,
                false,
                failure("interface inventory socket failed"@),
                self.events,
            ),
            (_, Some(Err(reason)), _) => turn == Turn::Failed(
                AcquisitionError::Lost { error: reason, events: self.events },
            ),
            (_, _, None) => turn is Again,
            (_, _, Some(Err(reason))) => turn == Turn::Failed(
                AcquisitionError::Ordinary { error: reason, events },
            ),
            (_, _, Some(Ok(datagram))) => match self.answered(datagram, high_first, sequence) {
                Ok((ended, _)) => if ended {
                    turn is Complete
                } else {
                    turn is Again
                },
                Err(fault) => turn matches Turn::Failed(
                    AcquisitionError::Ordinary { error, events: with },
                ) && with == events && fault_is(error, fault),
            },
        }
    }
}

/// Whether a turn failed with a loss or without one, for this reason and with these
/// changes.
pub open spec fn failed_as(
    turn: Turn,
    loss: bool,
    reason: crate::error::Report,
    events: EventBatch,
) -> bool {
    match turn {
        Turn::Failed(AcquisitionError::Lost { error, events: with }) => loss && error@ == reason
            && with == events,
        Turn::Failed(AcquisitionError::Ordinary { error, events: with }) => !loss && error@
            == reason && with == events,
        _ => false,
    }
}

/// How a turn of an inventory ended.
#[derive(Debug)]
pub enum Turn {
    Again,
    Complete,
    Failed(AcquisitionError),
}

impl Dump {
    /// What has been gathered so far.
    pub open spec fn gathered(self) -> Gathered {
        Gathered { links: link_views(self.links@), total: self.total as int, events: self.events }
    }

    /// Goes on after another turn, with what came of the wait, and of the reception
    /// of a notification and of an answer where there was one. After a failure only
    /// the changes still count.
    pub fn turn(
        &mut self,
        waited: Result<Ready, Error>,
        notified: Option<Result<Option<Span>, Error>>,
        answer: Option<Result<Datagram, Error>>,
        order: &HostOrder,
    ) -> (turn: Turn)
        ensures
            final(self).sequence == old(self).sequence,
            old(self).gathered().turns(
                waited,
                notified,
                answer,
                order.is_high_first(),
                old(self).sequence,
                turn,
            ),
            match turn {
                Turn::Failed(AcquisitionError::Lost { error, events }) => final(self).events
                    == events,
                Turn::Failed(AcquisitionError::Ordinary { error, events }) => final(self).events
                    == events,
                _ => final(self).gathered() == old(self).gathered().with_turn(
                    notified,
                    answer,
                    order.is_high_first(),
                    old(self).sequence,
                ),
            },
    {
        let ready: Ready = match waited {
            Ok(ready) => ready,
            Err(error) => {
                return Turn::Failed(lost(error, self.events));
            },
        };
        match check_ready(&ready, self.events) {
            Ok(()) => {},
            Err(failure) => {
                return Turn::Failed(failure);
            },
        }
        match notified {
            Some(Err(error)) => {
                return Turn::Failed(lost(error, self.events));
            },
            Some(Ok(Some(at))) => {
                self.note_event(at);
            },
            _ => {},
        }
        match answer {
            None => Turn::Again,
            Some(Err(error)) => Turn::Failed(ordinary(error, self.events)),
            Some(Ok(datagram)) => match self.take(&datagram, order) {
                Ok(true) => Turn::Complete,
                Ok(false) => Turn::Again,
                Err(error) => Turn::Failed(ordinary(error, self.events)),
            },
        }
    }
}

/// The bytes of the request for an inventory with this number: a header with its
/// length, the kind that asks for interfaces, the flags of a request for all of
/// them, and the number; and sixteen zeros, which name no interface in
/// particular.
pub open spec fn dump_request_bytes(sequence: u32, high_first: bool) -> Seq<u8> {
    crate::wire::u32_bytes(32, high_first) + crate::wire::u16_bytes(18, high_first)
        + crate::wire::u16_bytes(0x301, high_first) + crate::wire::u32_bytes(sequence, high_first)
        + Seq::new(20, |i: int| 0u8)
}

/// Builds a `NetlinkMessage` from `netlink_packet_core` that asks for all
/// interfaces, and calls its `finalize`, `buffer_len` and `serialize`. They write
/// the message in the order of this machine.
#[verifier::external_body]
pub(crate) fn dump_request(sequence: u32, order: &HostOrder) -> (bytes: Vec<u8>)
    ensures
        bytes@ == dump_request_bytes(sequence, order.is_high_first()),
{
    let link = LinkMessage::default();
    let mut message = NetlinkMessage::from(RouteNetlinkMessage::GetLink(link));
    message.header.flags = netlink_packet_core::NLM_F_REQUEST | netlink_packet_core::NLM_F_DUMP;
    message.header.sequence_number = sequence;
    message.finalize();
    let mut bytes = vec![0; message.buffer_len()];
    message.serialize(&mut bytes);
    bytes
}

/// The number of the request that follows the request with this number. It is
/// never zero, which is the number of notifications.
pub open spec fn following_sequence(sequence: u32) -> u32 {
    if sequence == u32::MAX {
        1
    } else {
        (sequence + 1) as u32
    }
}

/// The kernel as a source of inventories and notifications.
pub struct NetlinkSource<I: DatagramIo> {
    pub io: I,
    pub notification: Option<I::Socket>,
    pub sequence: u32,
    pub order: HostOrder,
}

/// An inventory that failed for a reason that leaves the notifications whole.
pub fn ordinary(error: Error, events: EventBatch) -> (failure: AcquisitionError)
    ensures
        failure == (AcquisitionError::Ordinary { error, events }),
{
    AcquisitionError::Ordinary { error, events }
}

/// An inventory that failed because notifications are lost.
pub fn lost(error: Error, events: EventBatch) -> (failure: AcquisitionError)
    ensures
        failure == (AcquisitionError::Lost { error, events }),
{
    AcquisitionError::Lost { error, events }
}

/// Whether `told` is what a notification amounts to that was received: the time
/// that `io` then gives, if it tells of a change; nothing, if it tells of none; or
/// why it was not received or is refused.
pub open spec fn notified<I: DatagramIo>(
    io: I,
    received: Result<Datagram, Error>,
    high_first: bool,
    told: Result<Option<Span>, Error>,
) -> bool {
    match received {
        Err(error) => told == Err::<Option<Span>, Error>(error),
        Ok(datagram) => match change_in(
            datagram.bytes@,
            datagram.from_kernel,
            datagram.truncated,
            high_first,
        ) {
            Err(report) => told matches Err(error) && error@ == report,
            Ok(false) => told matches Ok(None),
            Ok(true) => told matches Ok(Some(at)) && call_ensures(I::now, (&io,), at),
        },
    }
}

/// Whether `waited` is what a wait amounts to after which a notification was
/// received.
pub open spec fn woken<I: DatagramIo>(
    io: I,
    received: Result<Datagram, Error>,
    high_first: bool,
    waited: Result<WaitOutcome, Error>,
) -> bool {
    match waited {
        Ok(WaitOutcome::LinkChanged(at)) => notified(io, received, high_first, Ok(Some(at))),
        Ok(WaitOutcome::Deadline) => notified(io, received, high_first, Ok(None)),
        Ok(WaitOutcome::Shutdown) => false,
        Err(error) => notified(io, received, high_first, Err(error)),
    }
}

/// What a wait for notifications amounts to by what it ended with, if no
/// notification has come.
pub fn check_wait(ready: &Ready) -> (checked: Result<Option<WaitOutcome>, Error>)
    ensures
        match checked {
            Ok(Some(outcome)) => {
                &&& ready.shutdown || !ready.notification_failed && !ready.notification
                &&& outcome == if ready.shutdown {
                    WaitOutcome::Shutdown
                } else {
                    WaitOutcome::Deadline
                }
            },
            Ok(None) => !ready.shutdown && !ready.notification_failed && ready.notification,
            Err(error) => {
                &&& !ready.shutdown
                &&& ready.notification_failed
                &&& error@ == failure("link notification socket failed"@)
            },
        },
{
    if ready.shutdown {
        return Ok(Some(WaitOutcome::Shutdown));
    }
    if ready.notification_failed {
        return Err(other("link notification socket failed".to_owned()));
    }
    if !ready.notification {
        return Ok(Some(WaitOutcome::Deadline));
    }
    Ok(None)
}

impl<I: DatagramIo> NetlinkSource<I> {
    /// A source that has not been subscribed to.
    pub fn with_io(io: I) -> (source: Self)
        ensures
            source.io == io,
            source.notification is None,
            source.sequence == 0,
            source.order.is_native(),
    {
        Self { io, notification: None, sequence: 0, order: HostOrder::detect() }
    }

    /// The number of the next request.
    pub fn next_sequence(&mut self) -> (sequence: u32)
        ensures
            sequence == following_sequence(old(self).sequence),
            *final(self) == (NetlinkSource { sequence, ..*old(self) }),
    {
        self.sequence = self.sequence.wrapping_add(1);
        if self.sequence == 0 {
            self.sequence = 1;
        }
        self.sequence
    }

    /// Receives a notification, and tells when it came if it tells of a change.
    pub fn receive_notification(&mut self) -> (received: Result<Option<Span>, Error>)
        ensures
            final(self).notification == old(self).notification,
            final(self).sequence == old(self).sequence,
            final(self).order == old(self).order,
            match old(self).notification {
                None => {
                    &&& received matches Err(error) && error@ == failure(
                        "link notifications are not subscribed"@,
                    )
                    &&& final(self).io == old(self).io
                },
                Some(socket) => exists|io: &mut I, datagram: Result<Datagram, Error>|
                    {
                        &&& #[trigger] call_ensures(I::receive, (io, &socket), datagram)
                        &&& *io == old(self).io
                        &&& *final(io) == final(self).io
                        &&& notified(
                            final(self).io,
                            datagram,
                            old(self).order.is_high_first(),
                            received,
                        )
                    },
            },
    {
        let datagram: Datagram = match &self.notification {
            None => {
                return Err(other("link notifications are not subscribed".to_owned()));
            },
            Some(socket) => match self.io.receive(socket) {
                Ok(datagram) => datagram,
                Err(error) => {
                    return Err(error);
                },
            },
        };
        match read_notification(&datagram, &self.order) {
            Ok(true) => Ok(Some(self.io.now())),
            Ok(false) => Ok(None),
            Err(error) => Err(error),
        }
    }
}

/// What was received during a turn of an inventory: what came of the wait, and of
/// the reception of a notification and of an answer where there was one.
#[derive(Debug)]
pub struct Received {
    pub waited: Result<Ready, Error>,
    pub notified: Option<Result<Option<Span>, Error>>,
    pub answer: Option<Result<Datagram, Error>>,
}

impl Received {
    /// Whether the wait ended without trouble.
    pub open spec fn sound(self) -> bool {
        self.waited matches Ok(ready) && !ready.notification_failed && !ready.dump_failed
    }

    /// Whether a notification is to be received.
    pub open spec fn rings(self) -> bool {
        self.sound() && self.waited->Ok_0.notification
    }

    /// Whether an answer is to be received.
    pub open spec fn replies(self) -> bool {
        self.sound() && self.waited->Ok_0.dump && !(self.notified matches Some(Err(_)))
    }
}

/// A turn of an inventory: the time at its beginning, what was received, and what
/// the sockets were before and after it.
pub struct Exchange<I> {
    pub at: Span,
    pub begun: I,
    pub received: Received,
    pub ended: I,
}

/// What has been gathered after the first `n` turns.
pub open spec fn gathered_in<I>(
    trace: Seq<Exchange<I>>,
    n: int,
    high_first: bool,
    sequence: u32,
) -> Gathered
    decreases n,
{
    if n <= 0 {
        nothing_gathered()
    } else {
        gathered_in(trace, n - 1, high_first, sequence).with_turn(
            trace[n - 1].received.notified,
            trace[n - 1].received.answer,
            high_first,
            sequence,
        )
    }
}

/// Whether turn `n` ends like this.
pub open spec fn turns_in<I>(
    trace: Seq<Exchange<I>>,
    n: int,
    high_first: bool,
    sequence: u32,
    turn: Turn,
) -> bool {
    gathered_in(trace, n, high_first, sequence).turns(
        trace[n].received.waited,
        trace[n].received.notified,
        trace[n].received.answer,
        high_first,
        sequence,
        turn,
    )
}

/// Whether the first `n` turns all led to another one.
pub open spec fn goes_on<I>(
    trace: Seq<Exchange<I>>,
    n: int,
    high_first: bool,
    sequence: u32,
) -> bool {
    forall|i: int| 0 <= i < n ==> #[trigger] turns_in(trace, i, high_first, sequence, Turn::Again)
}

/// When an inventory that was begun at this time has to be complete.
pub open spec fn inventory_deadline(begun: Span) -> Span {
    crate::time::later(begun, crate::time::seconds(INVENTORY_TIMEOUT_SECS as nat))
}

/// How long a wait may take that begins at this time.
pub open spec fn time_left(begun: Span, now: Span) -> Span {
    crate::time::remainder(inventory_deadline(begun), now)
}

/// Whether an inventory that was begun at this time ends like this after these
/// turns. It ends with the last turn, if that one is complete or a failure. Or it
/// ends after turns that all led to another one: because there are no
/// notifications; or because the time is over, by what `io` gives as the time; or
/// because no more turns can be counted.
pub open spec fn concludes<I: DatagramIo>(
    begun: Span,
    trace: Seq<Exchange<I>>,
    subscribed: bool,
    high_first: bool,
    sequence: u32,
    io: I,
    attempt: Attempt,
    taken: Result<Inventory, AcquisitionError>,
) -> bool {
    let n = trace.len() as int;
    let all = gathered_in(trace, n, high_first, sequence);
    match taken {
        Ok(inventory) => {
            &&& n > 0
            &&& goes_on(trace, n - 1, high_first, sequence)
            &&& turns_in(trace, n - 1, high_first, sequence, Turn::Complete)
            &&& inventory.attempt == attempt
            &&& link_views(inventory.links@) == all.links
            &&& inventory.events == all.events
        },
        Err(error) => {
            ||| {
                &&& n > 0
                &&& goes_on(trace, n - 1, high_first, sequence)
                &&& turns_in(trace, n - 1, high_first, sequence, Turn::Failed(error))
            }
            ||| {
                &&& n == 0
                &&& !subscribed
                &&& failed_as(
                    Turn::Failed(error),
                    true,
                    failure("notification socket absent"@),
                    all.events,
                )
            }
            ||| {
                &&& goes_on(trace, n, high_first, sequence)
                &&& n == u64::MAX || over(io, begun)
                &&& failed_as(
                    Turn::Failed(error),
                    false,
                    crate::error::Report {
                        kind: ErrorKind::TimedOut,
                        message: "interface inventory exceeded its deadline"@,
                    },
                    all.events,
                )
            }
        },
    }
}

/// Whether an inventory failed with a loss of notifications.
pub open spec fn lost_in(taken: Result<Inventory, AcquisitionError>) -> bool {
    taken matches Err(error) && error is Lost
}

/// Whether turn `i` of an inventory that was begun at this time begins before the
/// time is over, by what the sockets give as the time.
pub open spec fn timely<I: DatagramIo>(trace: Seq<Exchange<I>>, i: int, begun: Span) -> bool {
    &&& call_ensures(I::now, (&trace[i].begun,), trace[i].at)
    &&& time_left(begun, trace[i].at).nanos > 0
}

/// Whether the sockets go from one turn to the next as the turns leave them, from
/// `first` on, and end as `last`.
pub open spec fn chained<I>(first: I, trace: Seq<Exchange<I>>, last: I) -> bool {
    &&& forall|i: int|
        0 <= i < trace.len() ==> #[trigger] trace[i].begun == if i == 0 {
            first
        } else {
            trace[i - 1].ended
        }
    &&& last == if trace.len() == 0 {
        first
    } else {
        trace.last().ended
    }
}

/// Whether the sockets are as they were.
pub open spec fn untouched<I>(before: I, after: I) -> bool {
    after == before
}

/// Whether `io` gives a time at which an inventory that was begun at this time has
/// to be complete.
pub open spec fn over<I: DatagramIo>(io: I, begun: Span) -> bool {
    exists|now: Span| #[trigger]
        call_ensures(I::now, (&io,), now) && time_left(begun, now).nanos == 0
}

/// Checks what a wait during an inventory ended with. Trouble with the
/// notifications is the graver one.
pub fn check_ready(ready: &Ready, events: EventBatch) -> (checked: Result<(), AcquisitionError>)
    ensures
        match checked {
            Ok(()) => !ready.notification_failed && !ready.dump_failed,
            Err(AcquisitionError::Lost { error, events: noted }) => {
                &&& ready.notification_failed
                &&& noted == events
                &&& error@ == failure("link notification socket failed"@)
            },
            Err(AcquisitionError::Ordinary { error, events: noted }) => {
                &&& !ready.notification_failed
                &&& ready.dump_failed
                &&& noted == events
                &&& error@ == failure("interface inventory socket failed"@)
            },
        },
{
    if ready.notification_failed {
        return Err(lost(other("link notification socket failed".to_owned()), events));
    }
    if ready.dump_failed {
        return Err(ordinary(other("interface inventory socket failed".to_owned()), events));
    }
    Ok(())
}

/// The failure that an inventory takes too long.
fn overdue(events: EventBatch) -> (error: AcquisitionError)
    ensures
        error matches AcquisitionError::Ordinary { error: reason, events: noted } && noted
            == events && reason@ == (crate::error::Report {
            kind: ErrorKind::TimedOut,
            message: "interface inventory exceeded its deadline"@,
        }),
{
    ordinary(
        Error {
            kind: ErrorKind::TimedOut,
            message: "interface inventory exceeded its deadline".to_owned(),
        },
        events,
    )
}

/// Whether the turns so far all led to another one, and this is what was gathered.
#[verifier::opaque]
spec fn pending<I>(
    trace: Seq<Exchange<I>>,
    gathered: Gathered,
    high_first: bool,
    sequence: u32,
) -> bool {
    &&& goes_on(trace, trace.len() as int, high_first, sequence)
    &&& gathered == gathered_in(trace, trace.len() as int, high_first, sequence)
}

/// Whether a turn ends like this, with this gathered then if it did not fail.
#[verifier::opaque]
spec fn turned(
    before: Gathered,
    received: Received,
    high_first: bool,
    sequence: u32,
    turn: Turn,
    after: Gathered,
) -> bool {
    &&& before.turns(
        received.waited,
        received.notified,
        received.answer,
        high_first,
        sequence,
        turn,
    )
    &&& !(turn is Failed) ==> after == before.with_turn(
        received.notified,
        received.answer,
        high_first,
        sequence,
    )
}

/// Whether an inventory ends like this after these turns.
#[verifier::opaque]
spec fn settled<I: DatagramIo>(
    begun: Span,
    trace: Seq<Exchange<I>>,
    subscribed: bool,
    high_first: bool,
    sequence: u32,
    io: I,
    attempt: Attempt,
    taken: Result<Inventory, AcquisitionError>,
) -> bool {
    concludes(begun, trace, subscribed, high_first, sequence, io, attempt, taken)
}

proof fn lemma_gathered_kept<I>(
    trace: Seq<Exchange<I>>,
    turn: Exchange<I>,
    n: int,
    high_first: bool,
    sequence: u32,
)
    requires
        n <= trace.len(),
    ensures
        gathered_in(trace.push(turn), n, high_first, sequence) == gathered_in(
            trace,
            n,
            high_first,
            sequence,
        ),
    decreases n,
{
    if n > 0 {
        lemma_gathered_kept(trace, turn, n - 1, high_first, sequence);
        assert(trace.push(turn)[n - 1] == trace[n - 1]);
    }
}

proof fn lemma_turns_kept<I>(
    trace: Seq<Exchange<I>>,
    turn: Exchange<I>,
    high_first: bool,
    sequence: u32,
)
    requires
        goes_on(trace, trace.len() as int, high_first, sequence),
    ensures
        goes_on(trace.push(turn), trace.len() as int, high_first, sequence),
        gathered_in(trace.push(turn), trace.len() as int, high_first, sequence) == gathered_in(
            trace,
            trace.len() as int,
            high_first,
            sequence,
        ),
{
    let more = trace.push(turn);
    assert forall|i: int| 0 <= i < trace.len() implies #[trigger] turns_in(
        more,
        i,
        high_first,
        sequence,
        Turn::Again,
    ) by {
        lemma_gathered_kept(trace, turn, i, high_first, sequence);
        assert(turns_in(trace, i, high_first, sequence, Turn::Again));
    }
    lemma_gathered_kept(trace, turn, trace.len() as int, high_first, sequence);
}

proof fn lemma_nothing_pending<I>(high_first: bool, sequence: u32)
    ensures
        pending(Seq::<Exchange<I>>::empty(), nothing_gathered(), high_first, sequence),
{
    reveal(pending);
}

proof fn lemma_goes_on<I>(
    trace: Seq<Exchange<I>>,
    turn: Exchange<I>,
    before: Gathered,
    after: Gathered,
    high_first: bool,
    sequence: u32,
)
    requires
        pending(trace, before, high_first, sequence),
        turned(before, turn.received, high_first, sequence, Turn::Again, after),
    ensures
        pending(trace.push(turn), after, high_first, sequence),
{
    reveal(pending);
    reveal(turned);
    lemma_turns_kept(trace, turn, high_first, sequence);
    assert(turns_in(trace.push(turn), trace.len() as int, high_first, sequence, Turn::Again));
}

proof fn lemma_ends<I: DatagramIo>(
    trace: Seq<Exchange<I>>,
    turn: Exchange<I>,
    before: Gathered,
    after: Gathered,
    end: Turn,
    begun: Span,
    subscribed: bool,
    high_first: bool,
    sequence: u32,
    io: I,
    attempt: Attempt,
    taken: Result<Inventory, AcquisitionError>,
)
    requires
        pending(trace, before, high_first, sequence),
        turned(before, turn.received, high_first, sequence, end, after),
        match end {
            Turn::Again => false,
            Turn::Complete => taken matches Ok(inventory) && inventory.attempt == attempt
                && link_views(inventory.links@) == after.links && inventory.events
                == after.events,
            Turn::Failed(error) => taken == Err::<Inventory, AcquisitionError>(error),
        },
    ensures
        settled(
            begun,
            trace.push(turn),
            subscribed,
            high_first,
            sequence,
            io,
            attempt,
            taken,
        ),
{
    reveal(pending);
    reveal(turned);
    reveal(settled);
    lemma_turns_kept(trace, turn, high_first, sequence);
    assert(turns_in(trace.push(turn), trace.len() as int, high_first, sequence, end));
}

proof fn lemma_gives_up<I: DatagramIo>(
    trace: Seq<Exchange<I>>,
    gathered: Gathered,
    begun: Span,
    subscribed: bool,
    high_first: bool,
    sequence: u32,
    io: I,
    attempt: Attempt,
    taken: Result<Inventory, AcquisitionError>,
)
    requires
        pending(trace, gathered, high_first, sequence),
        taken matches Err(error) && {
            ||| {
                &&& trace.len() == 0
                &&& !subscribed
                &&& failed_as(
                    Turn::Failed(error),
                    true,
                    failure("notification socket absent"@),
                    gathered.events,
                )
            }
            ||| {
                &&& trace.len() == u64::MAX || over(io, begun)
                &&& failed_as(
                    Turn::Failed(error),
                    false,
                    crate::error::Report {
                        kind: ErrorKind::TimedOut,
                        message: "interface inventory exceeded its deadline"@,
                    },
                    gathered.events,
                )
            }
        },
    ensures
        settled(begun, trace, subscribed, high_first, sequence, io, attempt, taken),
{
    reveal(pending);
    reveal(settled);
}

/// Goes on after another turn.
fn take_turn(dump: &mut Dump, received: Received, order: &HostOrder) -> (turn: Turn)
    ensures
        final(dump).sequence == old(dump).sequence,
        turned(
            old(dump).gathered(),
            received,
            order.is_high_first(),
            old(dump).sequence,
            turn,
            final(dump).gathered(),
        ),
{
    proof {
        reveal(turned);
    }
    dump.turn(received.waited, received.notified, received.answer, order)
}

impl<I: DatagramIo> NetlinkSource<I> {
    /// One turn of an inventory that is asked for on this socket: waits for it and
    /// for notifications, but no longer than `left`; then receives a notification
    /// and an answer, each where there is one and nothing is wrong before. `woken`
    /// and `heard` are the sockets after the wait and after the notification.
    pub fn exchange(&mut self, socket: &I::Socket, left: Span) -> (received: Received)
        requires
            old(self).notification is Some,
        ensures
            final(self).notification == old(self).notification,
            final(self).sequence == old(self).sequence,
            final(self).order == old(self).order,
            exists|woken: I, heard: I|
                {
                    &&& exists|io: &mut I|
                        {
                            &&& #[trigger] call_ensures(
                                I::wait,
                                (io, &old(self).notification->0, Some(socket), left),
                                received.waited,
                            )
                            &&& *io == old(self).io
                            &&& *final(io) == woken
                        }
                    &&& if received.rings() {
                        &&& received.notified matches Some(told)
                        &&& exists|io: &mut I, datagram: Result<Datagram, Error>|
                            {
                                &&& #[trigger] call_ensures(
                                    I::receive,
                                    (io, &old(self).notification->0),
                                    datagram,
                                )
                                &&& *io == woken
                                &&& *final(io) == heard
                                &&& notified(
                                    heard,
                                    datagram,
                                    old(self).order.is_high_first(),
                                    told,
                                )
                            }
                    } else {
                        received.notified is None && #[trigger] untouched(woken, heard)
                    }
                    &&& if received.replies() {
                        &&& received.answer matches Some(answer)
                        &&& exists|io: &mut I|
                            {
                                &&& #[trigger] call_ensures(I::receive, (io, socket), answer)
                                &&& *io == heard
                                &&& *final(io) == final(self).io
                            }
                    } else {
                        received.answer is None && final(self).io == heard
                    }
                },
    {
        let waited: Result<Ready, Error> = match &self.notification {
            Some(notification) => self.io.wait(notification, Some(socket), left),
            None => Err(other("notification socket absent".to_owned())),
        };
        let ghost woken = self.io;
        let sound: Option<Ready> = match &waited {
            Ok(ready) => if ready.notification_failed || ready.dump_failed {
                None
            } else {
                Some(*ready)
            },
            Err(_) => None,
        };
        let mut notified: Option<Result<Option<Span>, Error>> = None;
        let mut answer: Option<Result<Datagram, Error>> = None;
        if let Some(ready) = sound {
            if ready.notification {
                notified = Some(self.receive_notification());
            }
        }
        let ghost heard = self.io;
        if let Some(ready) = sound {
            if ready.dump && !matches!(notified, Some(Err(_))) {
                answer = Some(self.io.receive(socket));
            }
        }
        assert(untouched(woken, heard) <==> heard == woken);
        Received { waited, notified, answer }
    }

    /// Gathers the answers to the request for an inventory that was sent on this
    /// socket. `trace` are the turns that this takes.
    fn gather(&mut self, socket: &I::Socket, attempt: Attempt) -> (taken: Result<
        Inventory,
        AcquisitionError,
    >)
        ensures
            final(self).order == old(self).order,
            final(self).sequence == old(self).sequence,
            final(self).notification == if lost_in(taken) {
                None
            } else {
                old(self).notification
            },
            exists|begun: Span, trace: Seq<Exchange<I>>|
                {
                    &&& call_ensures(I::now, (&old(self).io,), begun)
                    &&& #[trigger] settled(
                        begun,
                        trace,
                        old(self).notification is Some,
                        old(self).order.is_high_first(),
                        old(self).sequence,
                        final(self).io,
                        attempt,
                        taken,
                    )
                    &&& chained(old(self).io, trace, final(self).io)
                    &&& trace.len() > 0 ==> old(self).notification is Some
                    &&& forall|i: int|
                        #![trigger timely(trace, i, begun)]
                        #![trigger trace[i].received]
                        0 <= i < trace.len() ==> {
                            let turn = trace[i];
                            &&& timely(trace, i, begun)
                            &&& exists|source: &mut NetlinkSource<I>|
                                {
                                    &&& #[trigger] call_ensures(
                                        NetlinkSource::<I>::exchange,
                                        (source, socket, time_left(begun, turn.at)),
                                        turn.received,
                                    )
                                    &&& *source == (NetlinkSource { io: turn.begun, ..*old(self) })
                                    &&& final(source).io == turn.ended
                                }
                        }
                },
    {
        let ghost before = *self;
        let ghost high_first = self.order.is_high_first();
        let begun: Span = self.io.now();
        let deadline: Span = begun.saturating_add(Span::from_secs(INVENTORY_TIMEOUT_SECS));
        let mut dump: Dump = Dump::new(self.sequence);
        let ghost mut trace = Seq::<Exchange<I>>::empty();
        proof {
            assert(link_views(dump.links@) =~= seq![]);
            lemma_nothing_pending::<I>(high_first, before.sequence);
        }
        let mut turns: u64 = u64::MAX;
        // The deadline is over long before so many turns are.
        while turns > 0
            invariant
                before == *old(self),
                *self == (NetlinkSource { io: self.io, ..before }),
                high_first == before.order.is_high_first(),
                deadline == inventory_deadline(begun),
                call_ensures(I::now, (&before.io,), begun),
                dump.sequence == before.sequence,
                trace.len() + turns == u64::MAX,
                trace.len() > 0 ==> before.notification is Some,
                pending(trace, dump.gathered(), high_first, before.sequence),
                chained(before.io, trace, self.io),
                forall|i: int|
                    #![trigger timely(trace, i, begun)]
                    #![trigger trace[i].received]
                    0 <= i < trace.len() ==> {
                        let turn = trace[i];
                        &&& timely(trace, i, begun)
                        &&& exists|source: &mut NetlinkSource<I>|
                            {
                                &&& #[trigger] call_ensures(
                                    NetlinkSource::<I>::exchange,
                                    (source, socket, time_left(begun, turn.at)),
                                    turn.received,
                                )
                                &&& *source == (NetlinkSource { io: turn.begun, ..before })
                                &&& final(source).io == turn.ended
                            }
                    },
            decreases turns,
        {
            let ghost gathered = dump.gathered();
            let ghost begun_io = self.io;
            let now: Span = self.io.now();
            let remaining: Span = deadline.saturating_sub(now);
            if remaining.is_zero() {
                let taken: Result<Inventory, AcquisitionError> = Err(overdue(dump.events));
                proof {
                    assert(over(self.io, begun));
                    lemma_gives_up(
                        trace,
                        gathered,
                        begun,
                        old(self).notification is Some,
                        old(self).order.is_high_first(),
                        old(self).sequence,
                        self.io,
                        attempt,
                        taken,
                    );
                }
                return taken;
            }
            if self.notification.is_none() {
                let taken: Result<Inventory, AcquisitionError> = Err(
                    lost(other("notification socket absent".to_owned()), dump.events),
                );
                proof {
                    lemma_gives_up(
                        trace,
                        gathered,
                        begun,
                        old(self).notification is Some,
                        old(self).order.is_high_first(),
                        old(self).sequence,
                        self.io,
                        attempt,
                        taken,
                    );
                }
                return taken;
            }
            let received: Received = self.exchange(socket, remaining);
            assert(exists|source: &mut NetlinkSource<I>|
                {
                    &&& #[trigger] call_ensures(
                        NetlinkSource::<I>::exchange,
                        (source, socket, remaining),
                        received,
                    )
                    &&& *source == (NetlinkSource { io: begun_io, ..before })
                    &&& final(source).io == self.io
                });
            let ghost earlier = trace;
            let ghost turn = Exchange { at: now, begun: begun_io, received, ended: self.io };
            proof {
                trace = earlier.push(turn);
                assert(time_left(begun, turn.at) == remaining);
                assert(trace[earlier.len() as int] == turn);
                assert(forall|i: int| 0 <= i < earlier.len() ==> #[trigger] trace[i] == earlier[i]);
                assert(chained(before.io, trace, self.io));
                assert forall|i: int| 0 <= i < trace.len() implies #[trigger] timely(
                    trace,
                    i,
                    begun,
                ) by {
                    if i < earlier.len() {
                        assert(timely(earlier, i, begun));
                    }
                }
            }
            match take_turn(&mut dump, received, &self.order) {
                Turn::Again => {
                    proof {
                        lemma_goes_on(
                            earlier,
                            turn,
                            gathered,
                            dump.gathered(),
                            high_first,
                            before.sequence,
                        );
                    }
                },
                Turn::Complete => {
                    let ghost after = dump.gathered();
                    let events: EventBatch = dump.events;
                    let taken: Result<Inventory, AcquisitionError> = Ok(
                        Inventory { attempt, links: dump.links, events },
                    );
                    proof {
                        lemma_ends(
                            earlier,
                            turn,
                            gathered,
                            after,
                            Turn::Complete,
                            begun,
                            old(self).notification is Some,
                            old(self).order.is_high_first(),
                            old(self).sequence,
                            self.io,
                            attempt,
                            taken,
                        );
                    }
                    return taken;
                },
                Turn::Failed(error) => {
                    if let AcquisitionError::Lost { .. } = &error {
                        self.notification = None;
                    }
                    let taken: Result<Inventory, AcquisitionError> = Err(error);
                    proof {
                        lemma_ends(
                            earlier,
                            turn,
                            gathered,
                            dump.gathered(),
                            Turn::Failed(taken->Err_0),
                            begun,
                            old(self).notification is Some,
                            old(self).order.is_high_first(),
                            old(self).sequence,
                            self.io,
                            attempt,
                            taken,
                        );
                    }
                    return taken;
                },
            }
            turns = turns - 1;
        }
        let taken: Result<Inventory, AcquisitionError> = Err(overdue(dump.events));
        proof {
            lemma_gives_up(
                trace,
                dump.gathered(),
                begun,
                old(self).notification is Some,
                old(self).order.is_high_first(),
                old(self).sequence,
                self.io,
                attempt,
                taken,
            );
        }
        taken
    }
}

impl<I: DatagramIo> Acquisition for NetlinkSource<I> {
    fn now(&self) -> (now: Span)
        ensures
            call_ensures(I::now, (&self.io,), now),
    {
        self.io.now()
    }

    fn subscribe(&mut self) -> (subscribed: Result<(), Error>)
        ensures
            exists|io: &mut I, opened: Result<I::Socket, Error>|
                {
                    &&& #[trigger] call_ensures(I::open, (io, LINK_MULTICAST_GROUP), opened)
                    &&& *io == old(self).io
                    &&& *final(io) == final(self).io
                    &&& match opened {
                        Ok(socket) => subscribed is Ok && final(self).notification == Some(socket),
                        Err(error) => subscribed == Err::<(), Error>(error)
                            && final(self).notification == old(self).notification,
                    }
                },
            final(self).sequence == old(self).sequence,
            final(self).order == old(self).order,
    {
        match self.io.open(LINK_MULTICAST_GROUP) {
            Ok(socket) => {
                self.notification = Some(socket);
                Ok(())
            },
            Err(error) => Err(error),
        }
    }

    fn inventory(&mut self, attempt: Attempt) -> (taken: Result<Inventory, AcquisitionError>)
        ensures
            final(self).order == old(self).order,
            final(self).notification == if lost_in(taken) {
                None
            } else {
                old(self).notification
            },
            exists|io: &mut I, opened: Result<I::Socket, Error>|
                {
                    &&& #[trigger] call_ensures(I::open, (io, 0u32), opened)
                    &&& *io == old(self).io
                    &&& match opened {
                        Err(error) => {
                            &&& taken == Err::<Inventory, AcquisitionError>(
                                AcquisitionError::Ordinary { error, events: no_events() },
                            )
                            &&& final(self).sequence == old(self).sequence
                            &&& *final(io) == final(self).io
                        },
                        Ok(socket) => exists|next: &mut I, request: &[u8], sent: Result<(), Error>|
                            {
                                &&& #[trigger] call_ensures(I::send, (next, &socket, request), sent)
                                &&& *next == *final(io)
                                &&& final(self).sequence == following_sequence(old(self).sequence)
                                &&& request@ == dump_request_bytes(
                                    final(self).sequence,
                                    old(self).order.is_high_first(),
                                )
                                &&& match sent {
                                    Err(error) => {
                                        &&& taken == Err::<Inventory, AcquisitionError>(
                                            AcquisitionError::Ordinary {
                                                error,
                                                events: no_events(),
                                            },
                                        )
                                        &&& *final(next) == final(self).io
                                    },
                                    Ok(()) => exists|begun: Span, trace: Seq<Exchange<I>>|
                                        {
                                            &&& call_ensures(I::now, (&*final(next),), begun)
                                            &&& #[trigger] concludes(
                                                begun,
                                                trace,
                                                old(self).notification is Some,
                                                old(self).order.is_high_first(),
                                                final(self).sequence,
                                                final(self).io,
                                                attempt,
                                                taken,
                                            )
                                            &&& chained(*final(next), trace, final(self).io)
                                            &&& trace.len() > 0 ==> old(self).notification is Some
                                            &&& forall|i: int|
                                                #![trigger timely(trace, i, begun)]
                                                #![trigger trace[i].received]
                                                0 <= i < trace.len() ==> {
                                                    let turn = trace[i];
                                                    &&& timely(trace, i, begun)
                                                    &&& exists|source: &mut NetlinkSource<I>|
                                                        {
                                                            &&& #[trigger] call_ensures(
                                                                NetlinkSource::<I>::exchange,
                                                                (source, &socket, time_left(begun, turn.at)),
                                                                turn.received,
                                                            )
                                                            &&& *source == (NetlinkSource { io: turn.begun, sequence: final(self).sequence, ..*old(self) })
                                                            &&& final(source).io == turn.ended
                                                        }
                                                }
                                        },
                                }
                            },
                    }
                },
    {
        let none: EventBatch = EventBatch::default();
        let socket: I::Socket = match self.io.open(0) {
            Ok(socket) => socket,
            Err(error) => {
                return Err(ordinary(error, none));
            },
        };
        let sequence: u32 = self.next_sequence();
        let request: Vec<u8> = dump_request(sequence, &self.order);
        match self.io.send(&socket, request.as_slice()) {
            Ok(()) => {},
            Err(error) => {
                return Err(ordinary(error, none));
            },
        }
        proof {
            reveal(settled);
        }
        self.gather(&socket, attempt)
    }

    fn wait(&mut self, timeout: Span) -> (waited: Result<WaitOutcome, Error>)
        ensures
            final(self).sequence == old(self).sequence,
            final(self).order == old(self).order,
            waited is Ok ==> final(self).notification == old(self).notification,
            waited is Err ==> final(self).notification is None,
            match old(self).notification {
                None => {
                    &&& waited matches Ok(WaitOutcome::Deadline)
                    &&& exists|io: &mut I|
                        {
                            &&& #[trigger] call_ensures(I::sleep, (io, timeout), ())
                            &&& *io == old(self).io
                            &&& *final(io) == final(self).io
                        }
                },
                Some(socket) => exists|io: &mut I, ended: Result<Ready, Error>|
                    {
                        &&& #[trigger] call_ensures(I::wait, (io, &socket, None, timeout), ended)
                        &&& *io == old(self).io
                        &&& match ended {
                            Err(error) => {
                                &&& waited == Err::<WaitOutcome, Error>(error)
                                &&& *final(io) == final(self).io
                            },
                            Ok(ready) => if ready.shutdown {
                                &&& waited matches Ok(WaitOutcome::Shutdown)
                                &&& *final(io) == final(self).io
                            } else if ready.notification_failed {
                                &&& waited matches Err(error) && error@ == failure(
                                    "link notification socket failed"@,
                                )
                                &&& *final(io) == final(self).io
                            } else if !ready.notification {
                                &&& waited matches Ok(WaitOutcome::Deadline)
                                &&& *final(io) == final(self).io
                            } else {
                                exists|next: &mut I, datagram: Result<Datagram, Error>|
                                    {
                                        &&& #[trigger] call_ensures(
                                            I::receive,
                                            (next, &socket),
                                            datagram,
                                        )
                                        &&& *next == *final(io)
                                        &&& *final(next) == final(self).io
                                        &&& woken(
                                            final(self).io,
                                            datagram,
                                            old(self).order.is_high_first(),
                                            waited,
                                        )
                                    }
                            },
                        }
                    },
            },
    {
        let waited: Result<Ready, Error> = match &self.notification {
            None => {
                self.io.sleep(timeout);
                return Ok(WaitOutcome::Deadline);
            },
            Some(notification) => self.io.wait(notification, None, timeout),
        };
        let ready: Ready = match waited {
            Ok(ready) => ready,
            Err(error) => {
                self.notification = None;
                return Err(error);
            },
        };
        match check_wait(&ready) {
            Ok(Some(outcome)) => {
                return Ok(outcome);
            },
            Ok(None) => {},
            Err(error) => {
                self.notification = None;
                return Err(error);
            },
        }
        match self.receive_notification() {
            Ok(Some(at)) => Ok(WaitOutcome::LinkChanged(at)),
            Ok(None) => Ok(WaitOutcome::Deadline),
            Err(error) => {
                self.notification = None;
                Err(error)
            },
        }
    }
}

/// The number of a request is never that of a notification, nor that of the
/// request before it.
pub proof fn request_numbers_are_told_apart(sequence: u32)
    ensures
        following_sequence(sequence) != 0,
        following_sequence(sequence) != sequence,
{
}

/// An answer with a message that belongs to another request, or to none, is
/// refused; and so is one with a message that says that the interfaces changed
/// while the inventory was taken, be it the last one.
pub proof fn a_foreign_or_interrupted_answer_is_refused(
    messages: Seq<MessageView>,
    sequence: u32,
    i: int,
)
    requires
        0 <= i < messages.len(),
        messages[i].sequence != sequence || messages[i].flags & NLM_F_DUMP_INTR != 0,
    ensures
        dump_of(messages, sequence, messages.len() as int) is Err,
{
    assert(dump_of(messages, sequence, i + 1) is Err);
    lemma_dump_kept(messages, sequence, i + 1, messages.len() as int);
}

/// A notification with a message that answers a request is refused.
pub proof fn an_answer_is_no_notification(messages: Seq<MessageView>, i: int)
    requires
        0 <= i < messages.len(),
        messages[i].sequence != 0,
    ensures
        change_of(messages, messages.len() as int) is Err,
{
    assert(change_of(messages, i + 1) is Err);
    lemma_change_kept(messages, i + 1, messages.len() as int);
}

/// An accepted answer ends the inventory exactly if its last message says that
/// the inventory is complete, and tells of one interface with each of its other
/// messages.
pub proof fn an_accepted_answer_is_told_completely(messages: Seq<MessageView>, sequence: u32, n: int)
    requires
        0 <= n <= messages.len(),
        dump_of(messages, sequence, n) is Ok,
    ensures
        dump_of(messages, sequence, n) matches Ok((ended, links)) && {
            &&& ended <==> n > 0 && n == messages.len() && messages[n - 1].body == BodyView::Done(0)
            &&& links.len() == if ended {
                n - 1
            } else {
                n
            }
            &&& forall|i: int|
                0 <= i < links.len() ==> (#[trigger] messages[i].body matches BodyView::NewLink(
                    record,
                ) && observed_in(record) == Ok::<ObservedView, crate::error::Report>(links[i]))
        },
    decreases n,
{
    if n > 0 {
        an_accepted_answer_is_told_completely(messages, sequence, n - 1);
    }
}

/// A turn fails with a loss exactly if the wait failed, or the notification socket
/// did, or the notification was not received or is refused. It comes with the
/// changes until then, be it a loss or not.
pub proof fn a_turn_fails_with_a_loss_exactly_if_notifications_fail(
    gathered: Gathered,
    received: Received,
    high_first: bool,
    sequence: u32,
    failure: AcquisitionError,
)
    requires
        gathered.turns(
            received.waited,
            received.notified,
            received.answer,
            high_first,
            sequence,
            Turn::Failed(failure),
        ),
        received.notified is Some <==> received.rings(),
    ensures
        failure is Lost <==> {
            ||| received.waited is Err
            ||| received.waited matches Ok(ready) && ready.notification_failed
            ||| received.notified matches Some(Err(_))
        },
        match failure {
            AcquisitionError::Lost { error, events } => events == gathered.events,
            AcquisitionError::Ordinary { error, events } => events == noted(
                gathered.events,
                received.notified,
            ),
        },
{
}

/// The times of the changes that notifications told of in the first `n` turns.
pub open spec fn told_in<I>(trace: Seq<Exchange<I>>, n: int) -> Seq<Span>
    decreases n,
{
    if n <= 0 {
        seq![]
    } else {
        match trace[n - 1].received.notified {
            Some(Ok(Some(at))) => told_in(trace, n - 1).push(at),
            _ => told_in(trace, n - 1),
        }
    }
}

/// The batch of changes at these times: the first and the last of them.
pub open spec fn batch_of(times: Seq<Span>) -> EventBatch {
    if times.len() == 0 {
        no_events()
    } else {
        EventBatch { first: Some(times.first()), last: Some(times.last()) }
    }
}

/// The changes that come with an inventory are the first and the last one that a
/// notification told of while it was taken, and none if there was none.
pub proof fn the_first_and_the_last_change_come_with_an_inventory<I>(
    trace: Seq<Exchange<I>>,
    n: int,
    high_first: bool,
    sequence: u32,
)
    requires
        0 <= n <= trace.len(),
    ensures
        gathered_in(trace, n, high_first, sequence).events == batch_of(told_in(trace, n)),
    decreases n,
{
    if n > 0 {
        the_first_and_the_last_change_come_with_an_inventory(trace, n - 1, high_first, sequence);
    }
}

/// The deadline of an inventory keeps its batch of changes possible: if the times at
/// which changes are told of ascend from the beginning on, and none comes later
/// after the deadline than a quiet time is longer than the time for an inventory.
pub proof fn the_deadline_keeps_a_batch_possible<I>(
    begun: Span,
    trace: Seq<Exchange<I>>,
    n: int,
    high_first: bool,
    sequence: u32,
)
    requires
        0 <= n <= trace.len(),
        forall|i: int, j: int|
            #![trigger told_in(trace, n)[i], told_in(trace, n)[j]]
            0 <= i <= j < told_in(trace, n).len() ==> begun.nanos <= told_in(trace, n)[i].nanos
                <= told_in(trace, n)[j].nanos,
        forall|i: int|
            0 <= i < told_in(trace, n).len() ==> #[trigger] told_in(trace, n)[i].nanos
                < inventory_deadline(begun).nanos + crate::monitor::event_reset().nanos
                - crate::time::seconds(INVENTORY_TIMEOUT_SECS as nat).nanos,
    ensures
        crate::monitor::batch_possible(gathered_in(trace, n, high_first, sequence).events),
{
    the_first_and_the_last_change_come_with_an_inventory(trace, n, high_first, sequence);
    let times = told_in(trace, n);
    if times.len() > 0 {
        assert(times[0] == times.first() && times[times.len() - 1] == times.last());
    }
}

/// The interfaces that the answers in the first `n` turns tell of, one answer after
/// the other.
pub open spec fn links_told<I>(
    trace: Seq<Exchange<I>>,
    n: int,
    high_first: bool,
    sequence: u32,
) -> Seq<ObservedView>
    decreases n,
{
    if n <= 0 {
        seq![]
    } else {
        match trace[n - 1].received.answer {
            Some(Ok(datagram)) => match dump_in(datagram.bytes@, high_first, sequence) {
                Ok((ended, found)) => links_told(trace, n - 1, high_first, sequence) + found,
                Err(_) => links_told(trace, n - 1, high_first, sequence),
            },
            _ => links_told(trace, n - 1, high_first, sequence),
        }
    }
}

/// The links of an inventory are those that its answers tell of, whatever
/// notifications tell; and all answers together keep to the limit.
pub proof fn only_answers_tell_of_links<I>(
    trace: Seq<Exchange<I>>,
    n: int,
    high_first: bool,
    sequence: u32,
)
    requires
        0 <= n <= trace.len(),
        goes_on(trace, n, high_first, sequence) || n > 0 && goes_on(
            trace,
            n - 1,
            high_first,
            sequence,
        ) && turns_in(trace, n - 1, high_first, sequence, Turn::Complete),
    ensures
        gathered_in(trace, n, high_first, sequence).links == links_told(
            trace,
            n,
            high_first,
            sequence,
        ),
        gathered_in(trace, n, high_first, sequence).total <= MAX_INVENTORY_BYTES,
    decreases n,
{
    if n > 0 {
        if goes_on(trace, n, high_first, sequence) {
            assert(turns_in(trace, n - 1, high_first, sequence, Turn::Again));
            assert forall|i: int| 0 <= i < n - 1 implies #[trigger] turns_in(
                trace,
                i,
                high_first,
                sequence,
                Turn::Again,
            ) by {}
        }
        assert(goes_on(trace, n - 1, high_first, sequence));
        only_answers_tell_of_links(trace, n - 1, high_first, sequence);
    }
}

/// A notification that is accepted tells of a change exactly if one of its messages
/// tells of an interface, be it there or gone.
pub proof fn a_notification_tells_of_a_change_exactly_if_an_interface_changed(
    messages: Seq<MessageView>,
    n: int,
)
    requires
        0 <= n <= messages.len(),
        change_of(messages, n) is Ok,
    ensures
        change_of(messages, n) == Ok::<bool, crate::error::Report>(true) <==> exists|i: int|
            0 <= i < n && ((#[trigger] messages[i]).body is NewLink || messages[i].body is DelLink),
    decreases n,
{
    if n > 0 {
        a_notification_tells_of_a_change_exactly_if_an_interface_changed(messages, n - 1);
        let _ = messages[n - 1];
    }
}

/// A notification is accepted exactly if none of its messages answers a request, and
/// each tells of an interface or says nothing.
pub proof fn a_notification_is_accepted_exactly_if_it_holds_nothing_else(
    messages: Seq<MessageView>,
    n: int,
)
    requires
        0 <= n <= messages.len(),
    ensures
        change_of(messages, n) is Ok <==> forall|i: int|
            0 <= i < n ==> (#[trigger] messages[i]).sequence == 0 && (messages[i].body is NewLink
                || messages[i].body is DelLink || messages[i].body is Noop),
    decreases n,
{
    if n > 0 {
        a_notification_is_accepted_exactly_if_it_holds_nothing_else(messages, n - 1);
        let _ = messages[n - 1];
    }
}

/// Whether information number `a` of field `i` tells the name of a kind.
pub open spec fn tells_kind(fields: Seq<LinkFieldView>, i: int, a: int) -> bool {
    fields[i] matches LinkFieldView::Described(infos) && 0 <= a < infos.len() && infos[a] is Called
}

/// Whether information number `a` of field `i` is data.
pub open spec fn tells_data(fields: Seq<LinkFieldView>, i: int, a: int) -> bool {
    fields[i] matches LinkFieldView::Described(infos) && 0 <= a < infos.len() && (infos[a] is Tunnel
        || infos[a] is OtherData)
}

/// Whether nothing is missing in what was found in the first `n` fields, nor made up.
pub open spec fn found_faithfully(fields: Seq<LinkFieldView>, n: int, found: FoundView) -> bool {
    &&& forall|i: int|
        0 <= i < n ==> match #[trigger] fields[i] {
            LinkFieldView::Named(name) => found.name == Some(name),
            LinkFieldView::ControlledBy(index) => found.controller == Some(index),
            LinkFieldView::Above(index) => found.lower == Some(index),
            LinkFieldView::AboveNamespace(id) => found.lower_netnsid == Some(id),
            _ => true,
        }
    &&& found.name is Some ==> exists|i: int| 0 <= i < n && #[trigger] fields[i] is Named
    &&& found.controller is Some ==> exists|i: int|
        0 <= i < n && #[trigger] fields[i] is ControlledBy
    &&& found.lower is Some ==> exists|i: int| 0 <= i < n && #[trigger] fields[i] is Above
    &&& found.lower_netnsid is Some ==> exists|i: int|
        0 <= i < n && #[trigger] fields[i] is AboveNamespace
    &&& forall|i: int, a: int|
        0 <= i < n && #[trigger] tells_kind(fields, i, a) ==> found.kind == Some(
            fields[i]->Described_0[a]->Called_0,
        )
    &&& forall|i: int, a: int|
        0 <= i < n && #[trigger] tells_data(fields, i, a) ==> found.data == Some(
            match fields[i]->Described_0[a] {
                InfoFieldView::Tunnel(through) => Some(through),
                _ => None,
            },
        )
    &&& found.kind is Some ==> exists|i: int, a: int|
        0 <= i < n && #[trigger] tells_kind(fields, i, a)
    &&& found.data is Some ==> exists|i: int, a: int|
        0 <= i < n && #[trigger] tells_data(fields, i, a)
}

/// What the first `m` pieces of information add to what was found before.
proof fn lemma_infos_faithful(found: FoundView, infos: Seq<InfoFieldView>, m: int)
    requires
        0 <= m <= infos.len(),
        with_infos(found, infos, m) is Ok,
    ensures
        ({
            let after = with_infos(found, infos, m)->Ok_0;
            &&& after.name == found.name
            &&& after.controller == found.controller
            &&& after.lower == found.lower
            &&& after.lower_netnsid == found.lower_netnsid
            &&& forall|a: int|
                0 <= a < m ==> match #[trigger] infos[a] {
                    InfoFieldView::Called(kind) => after.kind == Some(kind),
                    InfoFieldView::Tunnel(through) => after.data == Some(Some(through)),
                    InfoFieldView::OtherData => after.data == Some(None::<Seq<Option<u32>>>),
                    _ => true,
                }
            &&& found.kind is Some ==> after.kind == found.kind
            &&& found.data is Some ==> after.data == found.data
            &&& after.kind is Some && found.kind is None ==> exists|a: int|
                0 <= a < m && #[trigger] infos[a] is Called
            &&& after.data is Some && found.data is None ==> exists|a: int|
                0 <= a < m && (#[trigger] infos[a] is Tunnel || infos[a] is OtherData)
        }),
    decreases m,
{
    if m > 0 {
        lemma_infos_faithful(found, infos, m - 1);
        let _ = infos[m - 1];
    }
}

/// What is found in fields that are accepted is what they say, and all of it.
pub proof fn nothing_in_a_record_is_lost_or_made_up(fields: Seq<LinkFieldView>, n: int)
    requires
        0 <= n <= fields.len(),
        found_in(fields, n) is Ok,
    ensures
        found_faithfully(fields, n, found_in(fields, n)->Ok_0),
    decreases n,
{
    if n > 0 {
        nothing_in_a_record_is_lost_or_made_up(fields, n - 1);
        let before = found_in(fields, n - 1)->Ok_0;
        let after = found_in(fields, n)->Ok_0;
        let last = fields[n - 1];
        if let LinkFieldView::Described(infos) = last {
            lemma_infos_faithful(before, infos, infos.len() as int);
            if after.kind is Some && before.kind is None {
                let a = choose|a: int| 0 <= a < infos.len() && #[trigger] infos[a] is Called;
                assert(tells_kind(fields, n - 1, a));
            }
            if after.data is Some && before.data is None {
                let a = choose|a: int|
                    0 <= a < infos.len() && (#[trigger] infos[a] is Tunnel || infos[a]
                        is OtherData);
                assert(tells_data(fields, n - 1, a));
            }
            assert forall|i: int, a: int|
                0 <= i < n && #[trigger] tells_kind(fields, i, a) implies after.kind == Some(
                fields[i]->Described_0[a]->Called_0,
            ) by {
                if i == n - 1 {
                    assert(infos[a] is Called);
                }
            }
            assert forall|i: int, a: int|
                0 <= i < n && #[trigger] tells_data(fields, i, a) implies after.data == Some(
                match fields[i]->Described_0[a] {
                    InfoFieldView::Tunnel(through) => Some(through),
                    _ => None,
                },
            ) by {
                if i == n - 1 {
                    let _ = infos[a];
                }
            }
        } else {
            assert(forall|a: int| !(#[trigger] tells_kind(fields, n - 1, a)));
            assert(forall|a: int| !(#[trigger] tells_data(fields, n - 1, a)));
        }
    }
}

/// Whether something is there twice in the first `n` fields.
pub open spec fn says_twice(fields: Seq<LinkFieldView>, n: int) -> bool {
    ||| exists|i: int, j: int|
        #![trigger fields[i], fields[j]]
        0 <= i < j < n && {
            ||| fields[i] is Named && fields[j] is Named
            ||| fields[i] is ControlledBy && fields[j] is ControlledBy
            ||| fields[i] is Above && fields[j] is Above
            ||| fields[i] is AboveNamespace && fields[j] is AboveNamespace
        }
    ||| exists|i: int, a: int, j: int, b: int|
        0 <= i < n && 0 <= j < n && (i, a) != (j, b) && #[trigger] tells_kind(fields, i, a)
            && #[trigger] tells_kind(fields, j, b)
    ||| exists|i: int, a: int, j: int, b: int|
        0 <= i < n && 0 <= j < n && (i, a) != (j, b) && #[trigger] tells_data(fields, i, a)
            && #[trigger] tells_data(fields, j, b)
}

/// The first piece of information that is there twice.
proof fn lemma_infos_refused(found: FoundView, infos: Seq<InfoFieldView>, m: int) -> (b: int)
    requires
        0 <= m <= infos.len(),
        with_infos(found, infos, m) is Err,
    ensures
        0 <= b < m,
        with_infos(found, infos, b) is Ok,
        infos[b] is Called && with_infos(found, infos, b)->Ok_0.kind is Some || ((infos[b] is Tunnel
            || infos[b] is OtherData) && with_infos(found, infos, b)->Ok_0.data is Some),
    decreases m,
{
    if with_infos(found, infos, m - 1) is Err {
        lemma_infos_refused(found, infos, m - 1)
    } else {
        m - 1
    }
}

/// Fields are refused only if something is there twice.
pub proof fn a_record_is_refused_only_if_something_is_there_twice(
    fields: Seq<LinkFieldView>,
    n: int,
)
    requires
        0 <= n <= fields.len(),
        found_in(fields, n) is Err,
    ensures
        says_twice(fields, n),
    decreases n,
{
    if n > 0 {
        if found_in(fields, n - 1) is Err {
            a_record_is_refused_only_if_something_is_there_twice(fields, n - 1);
        } else {
            nothing_in_a_record_is_lost_or_made_up(fields, n - 1);
            let before = found_in(fields, n - 1)->Ok_0;
            let last = fields[n - 1];
            match last {
                LinkFieldView::Named(_) => {
                    let i = choose|i: int| 0 <= i < n - 1 && #[trigger] fields[i] is Named;
                    assert(fields[i] is Named && fields[n - 1] is Named);
                },
                LinkFieldView::ControlledBy(_) => {
                    let i = choose|i: int| 0 <= i < n - 1 && #[trigger] fields[i] is ControlledBy;
                    assert(fields[i] is ControlledBy && fields[n - 1] is ControlledBy);
                },
                LinkFieldView::Above(_) => {
                    let i = choose|i: int| 0 <= i < n - 1 && #[trigger] fields[i] is Above;
                    assert(fields[i] is Above && fields[n - 1] is Above);
                },
                LinkFieldView::AboveNamespace(_) => {
                    let i = choose|i: int| 0 <= i < n - 1 && #[trigger] fields[i] is AboveNamespace;
                    assert(fields[i] is AboveNamespace && fields[n - 1] is AboveNamespace);
                },
                LinkFieldView::Described(infos) => {
                    let b = lemma_infos_refused(before, infos, infos.len() as int);
                    lemma_infos_faithful(before, infos, b);
                    if infos[b] is Called {
                        assert(tells_kind(fields, n - 1, b));
                        if before.kind is Some {
                            let (i, a) = choose|i: int, a: int|
                                0 <= i < n - 1 && #[trigger] tells_kind(fields, i, a);
                            assert((i, a) != (n - 1, b));
                            assert(tells_kind(fields, i, a));
                        } else {
                            let a = choose|a: int| 0 <= a < b && #[trigger] infos[a] is Called;
                            assert(tells_kind(fields, n - 1, a));
                            assert((n - 1, a) != (n - 1, b));
                        }
                    } else {
                        assert(tells_data(fields, n - 1, b));
                        if before.data is Some {
                            let (i, a) = choose|i: int, a: int|
                                0 <= i < n - 1 && #[trigger] tells_data(fields, i, a);
                            assert((i, a) != (n - 1, b));
                            assert(tells_data(fields, i, a));
                        } else {
                            let a = choose|a: int|
                                0 <= a < b && (#[trigger] infos[a] is Tunnel || infos[a]
                                    is OtherData);
                            assert(tells_data(fields, n - 1, a));
                            assert((n - 1, a) != (n - 1, b));
                        }
                    }
                },
                LinkFieldView::Unrelated => {},
            }
        }
    }
}

/// What a tunnel goes through is the one index that its data name, if they do; they are
/// refused only if they name two.
pub proof fn a_tunnel_goes_through_the_index_that_its_data_name(
    through: Seq<Option<u32>>,
    n: int,
)
    requires
        0 <= n <= through.len(),
    ensures
        match tunnel_through(through, n) {
            Ok(index) => {
                &&& forall|i: int| 0 <= i < n && (#[trigger] through[i]) is Some ==> through[i] == index
                &&& index is Some ==> exists|i: int| 0 <= i < n && (#[trigger] through[i]) is Some
            },
            Err(_) => exists|i: int, j: int|
                #![trigger through[i], through[j]]
                0 <= i < j < n && through[i] is Some && through[j] is Some,
        },
    decreases n,
{
    if n > 0 {
        a_tunnel_goes_through_the_index_that_its_data_name(through, n - 1);
        let _ = through[n - 1];
        if tunnel_through(through, n) is Err && tunnel_through(through, n - 1) is Ok {
            let i = choose|i: int| 0 <= i < n - 1 && (#[trigger] through[i]) is Some;
            assert(through[i] is Some && through[n - 1] is Some);
        }
    }
}

/// A kind has the name that the kernel has for it.
pub proof fn a_kind_is_told_by_its_name(text: Seq<char>)
    ensures
        kind_named(None) == LinkKind::Other,
        kind_named(Some(text)) == LinkKind::Bond <==> text == "bond"@,
        kind_named(Some(text)) == LinkKind::Bridge <==> text == "bridge"@,
        kind_named(Some(text)) == LinkKind::Vlan <==> text == "vlan"@,
        kind_named(Some(text)) == LinkKind::MacVlan <==> text == "macvlan"@,
        kind_named(Some(text)) == LinkKind::IpVlan <==> text == "ipvlan"@,
        kind_named(Some(text)) == LinkKind::MacVtap <==> text == "macvtap"@,
        kind_named(Some(text)) == LinkKind::Vxlan <==> text == "vxlan"@,
        kind_named(Some(text)) == LinkKind::Veth <==> text == "veth"@,
{
    reveal_strlit("bond");
    reveal_strlit("bridge");
    reveal_strlit("vlan");
    reveal_strlit("macvlan");
    reveal_strlit("ipvlan");
    reveal_strlit("macvtap");
    reveal_strlit("vxlan");
    reveal_strlit("veth");
    assert("bond"@.len() == 4 && "bridge"@.len() == 6 && "vlan"@.len() == 4);
    assert("macvlan"@.len() == 7 && "ipvlan"@.len() == 6 && "macvtap"@.len() == 7);
    assert("vxlan"@.len() == 5 && "veth"@.len() == 4);
    assert("bond"@[0] == 'b' && "vlan"@[0] == 'v' && "veth"@[0] == 'v');
    assert("vlan"@[1] == 'l' && "veth"@[1] == 'e');
    assert("macvlan"@[4] == 'l' && "macvtap"@[4] == 't');
    assert("bridge"@[0] == 'b' && "ipvlan"@[0] == 'i');
}

/// An answer is accepted exactly if each of its messages belongs to the request and was
/// not interrupted, and tells of an interface, or, as the last one, that the inventory
/// is complete.
pub proof fn an_answer_is_accepted_exactly_if_it_is_whole(
    messages: Seq<MessageView>,
    sequence: u32,
    n: int,
)
    requires
        0 <= n <= messages.len(),
    ensures
        dump_of(messages, sequence, n) is Ok <==> forall|i: int|
            0 <= i < n ==> (#[trigger] messages[i]).sequence == sequence && messages[i].flags & 16
                == 0 && match messages[i].body {
                BodyView::NewLink(record) => observed_in(record) is Ok,
                BodyView::Done(code) => code == 0 && i == messages.len() - 1,
                _ => false,
            },
    decreases n,
{
    if n > 0 {
        an_answer_is_accepted_exactly_if_it_is_whole(messages, sequence, n - 1);
        let _ = messages[n - 1];
    }
}

/// A message has its number, its flags and its kind where they are, whatever follows.
pub proof fn a_message_is_of_the_kind_that_it_says(bytes: Seq<u8>, length: int, high_first: bool)
    requires
        16 <= length <= bytes.len(),
    ensures
        message_in(bytes.take(length), high_first).sequence == crate::wire::u32_at(
            bytes,
            8,
            high_first,
        ),
        message_in(bytes.take(length), high_first).flags == crate::wire::u16_at(
            bytes,
            6,
            high_first,
        ),
        match crate::wire::u16_at(bytes, 4, high_first) {
            1 => message_in(bytes.take(length), high_first).body is Noop,
            2 => message_in(bytes.take(length), high_first).body is Error,
            3 => message_in(bytes.take(length), high_first).body is Done,
            4 => message_in(bytes.take(length), high_first).body is Overrun,
            16 => message_in(bytes.take(length), high_first).body is NewLink,
            17 => message_in(bytes.take(length), high_first).body is DelLink,
            _ => message_in(bytes.take(length), high_first).body is Other,
        },
{
    let frame = bytes.take(length);
    assert(forall|i: int| 0 <= i < 16 ==> frame[i] == bytes[i]);
}

/// The first message of some bytes is as long as it says, and the next one begins at
/// the next multiple of four bytes.
#[verifier::spinoff_prover]
#[verifier::rlimit(60)]
pub proof fn messages_follow_each_other(
    bytes: Seq<u8>,
    length: int,
    next: int,
    high_first: bool,
)
    requires
        bytes.len() > 0,
        length == crate::wire::u32_at(bytes, 0, high_first),
        next == (length + 3) / 4 * 4,
    ensures
        messages_in(bytes, high_first) matches Ok(messages) ==> {
            &&& 16 <= length <= bytes.len()
            &&& length == bytes.len() || next <= bytes.len()
            &&& messages.len() > 0
            &&& messages[0] == message_in(bytes.take(length), high_first)
            &&& next >= bytes.len() ==> messages.len() == 1
            &&& next < bytes.len() ==> messages_in(bytes.skip(next), high_first) == Ok::<
                Seq<MessageView>,
                crate::error::Report,
            >(messages.skip(1))
        },
        messages_in(bytes, high_first) is Err ==> {
            ||| bytes.len() < 16
            ||| length < 16
            ||| length > bytes.len()
            ||| readable(bytes.take(length), high_first) is Err
            ||| length < bytes.len() < next
            ||| next < bytes.len() && messages_in(bytes.skip(next), high_first) is Err
        },
{
    if bytes.len() >= 16 && 16 <= length <= bytes.len() {
        let read = readable(bytes.take(length), high_first);
        let first = message_in(bytes.take(length), high_first);
        let later = messages_in(bytes.skip(next), high_first);
        assert(padding(length) == next - length);
        lemma_messages_step(bytes, length, next, high_first, read, first, later);
        if next == bytes.len() {
            assert(bytes.skip(next).len() == 0);
            assert(later == Ok::<Seq<MessageView>, crate::error::Report>(seq![]));
        }
        if let Ok(others) = later {
            assert((seq![first] + others).skip(1) =~= others);
            assert((seq![first] + others)[0] == first);
        }
    }
}

#[verifier::spinoff_prover]
#[verifier::rlimit(40)]
proof fn lemma_messages_step(
    bytes: Seq<u8>,
    length: int,
    next: int,
    high_first: bool,
    read: Result<(), Seq<char>>,
    first: MessageView,
    later: Result<Seq<MessageView>, crate::error::Report>,
)
    requires
        16 <= length <= bytes.len(),
        length == crate::wire::u32_at(bytes, 0, high_first),
        next == length + padding(length),
        read == readable(bytes.take(length), high_first),
        first == message_in(bytes.take(length), high_first),
        later == messages_in(bytes.skip(next), high_first),
    ensures
        messages_in(bytes, high_first) is Ok <==> read is Ok && (length == bytes.len() || (next
            <= bytes.len() && later is Ok)),
        messages_in(bytes, high_first) is Ok ==> messages_in(bytes, high_first)->Ok_0 == if length
            == bytes.len() {
            seq![first]
        } else {
            seq![first] + later->Ok_0
        },
{
}

/// Fields in which something is there twice are refused.
pub proof fn a_record_that_says_something_twice_is_refused(fields: Seq<LinkFieldView>, n: int)
    requires
        0 <= n <= fields.len(),
        says_twice(fields, n),
    ensures
        found_in(fields, n) is Err,
    decreases n,
{
    if found_in(fields, n) is Ok && n > 0 {
        if says_twice(fields, n - 1) {
            a_record_that_says_something_twice_is_refused(fields, n - 1);
        } else {
            nothing_in_a_record_is_lost_or_made_up(fields, n - 1);
            let before = found_in(fields, n - 1)->Ok_0;
            let last = fields[n - 1];
            if exists|i: int, j: int|
                #![trigger fields[i], fields[j]]
                0 <= i < j < n && {
                    ||| fields[i] is Named && fields[j] is Named
                    ||| fields[i] is ControlledBy && fields[j] is ControlledBy
                    ||| fields[i] is Above && fields[j] is Above
                    ||| fields[i] is AboveNamespace && fields[j] is AboveNamespace
                } {
                let (i, j) = choose|i: int, j: int|
                    #![trigger fields[i], fields[j]]
                    0 <= i < j < n && {
                        ||| fields[i] is Named && fields[j] is Named
                        ||| fields[i] is ControlledBy && fields[j] is ControlledBy
                        ||| fields[i] is Above && fields[j] is Above
                        ||| fields[i] is AboveNamespace && fields[j] is AboveNamespace
                    };
                assert(j == n - 1);
                assert(fields[i] is Named ==> before.name is Some);
                assert(false);
            } else if let LinkFieldView::Described(infos) = last {
                assert forall|a: int|
                    0 <= a < infos.len() && infos[a] is Called implies before.kind is None by {
                    if before.kind is Some {
                        lemma_infos_keep(before, infos, a, infos.len() as int);
                    }
                }
                assert forall|a: int|
                    0 <= a < infos.len() && (infos[a] is Tunnel || infos[a]
                        is OtherData) implies before.data is None by {
                    if before.data is Some {
                        lemma_infos_keep(before, infos, a, infos.len() as int);
                    }
                }
                assert forall|a: int, b: int|
                    0 <= a < b < infos.len() implies !(infos[a] is Called && infos[b] is Called)
                    && !((infos[a] is Tunnel || infos[a] is OtherData) && (infos[b] is Tunnel
                    || infos[b] is OtherData)) by {
                    lemma_infos_keep(before, infos, b, infos.len() as int);
                    lemma_infos_keep(before, infos, a, b);
                    lemma_infos_faithful(before, infos, b);
                    let _ = infos[a];
                }
                if exists|i: int, a: int, j: int, b: int|
                    0 <= i < n && 0 <= j < n && (i, a) != (j, b) && #[trigger] tells_kind(
                        fields,
                        i,
                        a,
                    ) && #[trigger] tells_kind(fields, j, b) {
                    let (i, a, j, b) = choose|i: int, a: int, j: int, b: int|
                        0 <= i < n && 0 <= j < n && (i, a) != (j, b) && #[trigger] tells_kind(
                            fields,
                            i,
                            a,
                        ) && #[trigger] tells_kind(fields, j, b);
                    assert(i == n - 1 || j == n - 1);
                    assert(i < n - 1 ==> before.kind is Some);
                    assert(j < n - 1 ==> before.kind is Some);
                    assert(i == n - 1 ==> infos[a] is Called);
                    assert(j == n - 1 ==> infos[b] is Called);
                    assert(false);
                } else {
                    let (i, a, j, b) = choose|i: int, a: int, j: int, b: int|
                        0 <= i < n && 0 <= j < n && (i, a) != (j, b) && #[trigger] tells_data(
                            fields,
                            i,
                            a,
                        ) && #[trigger] tells_data(fields, j, b);
                    assert(i == n - 1 || j == n - 1);
                    assert(i < n - 1 ==> before.data is Some);
                    assert(j < n - 1 ==> before.data is Some);
                    assert(false);
                }
            } else {
                assert(forall|a: int| !(#[trigger] tells_kind(fields, n - 1, a)));
                assert(forall|a: int| !(#[trigger] tells_data(fields, n - 1, a)));
                assert(false);
            }
        }
    }
}

/// What was found before a piece of information that is accepted leaves room for it.
proof fn lemma_infos_keep(found: FoundView, infos: Seq<InfoFieldView>, a: int, m: int)
    requires
        0 <= a < m <= infos.len(),
        with_infos(found, infos, m) is Ok,
    ensures
        with_infos(found, infos, a) is Ok,
        with_info(with_infos(found, infos, a)->Ok_0, infos[a]) is Ok,
        infos[a] is Called ==> with_infos(found, infos, a)->Ok_0.kind is None && found.kind is None,
        infos[a] is Tunnel || infos[a] is OtherData ==> with_infos(found, infos, a)->Ok_0.data
            is None && found.data is None,
    decreases m,
{
    if a < m - 1 {
        lemma_infos_keep(found, infos, a, m - 1);
    } else {
        lemma_infos_faithful(found, infos, a);
    }
}

/// Data of a tunnel that name two indexes are refused.
pub proof fn a_tunnel_through_two_interfaces_is_refused(
    through: Seq<Option<u32>>,
    n: int,
    i: int,
    j: int,
)
    requires
        0 <= i < j < n <= through.len(),
        through[i] is Some,
        through[j] is Some,
    ensures
        tunnel_through(through, n) is Err,
    decreases n,
{
    if j < n - 1 {
        a_tunnel_through_two_interfaces_is_refused(through, n - 1, i, j);
    } else {
        a_tunnel_goes_through_the_index_that_its_data_name(through, n - 1);
    }
}

/// A message carries what it says: the code of an error, or of the end, which is a zero if
/// there is none; and of an interface what is said of it.
pub proof fn a_message_carries_what_it_says(bytes: Seq<u8>, length: int, high_first: bool)
    requires
        16 <= length <= bytes.len(),
    ensures
        message_in(bytes.take(length), high_first).body matches BodyView::Error(code) ==> code
            == i32_at(bytes.take(length), 16, high_first),
        message_in(bytes.take(length), high_first).body matches BodyView::Done(code) ==> code
            == if length == 16 {
            0
        } else {
            i32_at(bytes.take(length), 16, high_first)
        },
        message_in(bytes.take(length), high_first).body matches BodyView::NewLink(record)
            ==> record == link_in(bytes.take(length).skip(16), high_first)->0,
{
}

} // verus!

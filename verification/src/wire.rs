//! The messages of the protocol between a master agent and its subagents, as
//! bytes.

use vstd::prelude::*;

use agentx::encodings::{Value as Data, VarBind as Binding, VarBindList, ID};
use agentx::{pdu, ByteOrder};

use crate::mib::{RangeView, SearchRange, Value, VarBind, VarBindView};
use crate::oid::{Oid, OidView};
use crate::text::{characters, read_dotted};

verus! {

/// The flag by which a message says that its numbers are in network byte order.
pub const NETWORK_ORDER: u8 = 16;

/// The flag by which a message says that it is about a context of its own.
pub const NON_DEFAULT_CONTEXT: u8 = 8;

/// Whether a message with these flags has its numbers in network byte order.
pub open spec fn network_order(flags: u8) -> bool {
    flags & NETWORK_ORDER != 0
}

/// Whether a message with these flags is about a context of its own.
pub open spec fn names_context(flags: u8) -> bool {
    flags & NON_DEFAULT_CONTEXT != 0
}

/// A number of two bytes, with the highest one first or last.
pub open spec fn u16_bytes(n: u16, high_first: bool) -> Seq<u8> {
    let high = (n / 0x100) as u8;
    let low = (n % 0x100) as u8;
    if high_first {
        seq![high, low]
    } else {
        seq![low, high]
    }
}

/// A number of four bytes, with the highest one first or last.
pub open spec fn u32_bytes(n: u32, high_first: bool) -> Seq<u8> {
    let b0 = (n / 0x100_0000) as u8;
    let b1 = (n / 0x1_0000 % 0x100) as u8;
    let b2 = (n / 0x100 % 0x100) as u8;
    let b3 = (n % 0x100) as u8;
    if high_first {
        seq![b0, b1, b2, b3]
    } else {
        seq![b3, b2, b1, b0]
    }
}

/// The number of two bytes at position `i`.
pub open spec fn u16_at(bytes: Seq<u8>, i: int, high_first: bool) -> u16 {
    if high_first {
        (bytes[i] * 0x100 + bytes[i + 1]) as u16
    } else {
        (bytes[i + 1] * 0x100 + bytes[i]) as u16
    }
}

/// The number of four bytes at position `i`.
pub open spec fn u32_at(bytes: Seq<u8>, i: int, high_first: bool) -> u32 {
    if high_first {
        (bytes[i] * 0x100_0000 + bytes[i + 1] * 0x1_0000 + bytes[i + 2] * 0x100
            + bytes[i + 3]) as u32
    } else {
        (bytes[i + 3] * 0x100_0000 + bytes[i + 2] * 0x1_0000 + bytes[i + 1] * 0x100
            + bytes[i]) as u32
    }
}

/// Reading a number gives back the number that was written.
pub proof fn numbers_are_read_as_they_were_written(bytes: Seq<u8>, i: int, n: u32, high_first: bool)
    requires
        0 <= i,
        i + 4 <= bytes.len(),
        bytes.subrange(i, i + 4) == u32_bytes(n, high_first),
    ensures
        u32_at(bytes, i, high_first) == n,
{
    let part = bytes.subrange(i, i + 4);
    assert(bytes[i] == part[0]);
    assert(bytes[i + 1] == part[1]);
    assert(bytes[i + 2] == part[2]);
    assert(bytes[i + 3] == part[3]);
}

/// The kinds of message.
#[derive(Clone, Copy, Debug, PartialEq, Eq, Structural)]
pub enum Type {
    Open,
    Close,
    Register,
    Unregister,
    Get,
    GetNext,
    GetBulk,
    TestSet,
    CommitSet,
    UndoSet,
    CleanupSet,
    Notify,
    Ping,
    IndexAllocate,
    IndexDeallocate,
    AddAgentCaps,
    RemoveAgentCaps,
    Response,
}

/// The kind of message that a byte from 1 to 18 stands for.
pub open spec fn type_of(code: u8) -> Type {
    match code {
        1 => Type::Open,
        2 => Type::Close,
        3 => Type::Register,
        4 => Type::Unregister,
        5 => Type::Get,
        6 => Type::GetNext,
        7 => Type::GetBulk,
        8 => Type::TestSet,
        9 => Type::CommitSet,
        10 => Type::UndoSet,
        11 => Type::CleanupSet,
        12 => Type::Notify,
        13 => Type::Ping,
        14 => Type::IndexAllocate,
        15 => Type::IndexDeallocate,
        16 => Type::AddAgentCaps,
        17 => Type::RemoveAgentCaps,
        _ => Type::Response,
    }
}

/// The kind of message that a byte from 1 to 18 stands for.
fn type_of_code(code: u8) -> (ty: Type)
    ensures
        ty == type_of(code),
{
    match code {
        1 => Type::Open,
        2 => Type::Close,
        3 => Type::Register,
        4 => Type::Unregister,
        5 => Type::Get,
        6 => Type::GetNext,
        7 => Type::GetBulk,
        8 => Type::TestSet,
        9 => Type::CommitSet,
        10 => Type::UndoSet,
        11 => Type::CleanupSet,
        12 => Type::Notify,
        13 => Type::Ping,
        14 => Type::IndexAllocate,
        15 => Type::IndexDeallocate,
        16 => Type::AddAgentCaps,
        17 => Type::RemoveAgentCaps,
        _ => Type::Response,
    }
}

/// The name of a kind of message.
pub open spec fn message_name(ty: Type) -> Seq<char> {
    match ty {
        Type::Open => "Open"@,
        Type::Close => "Close"@,
        Type::Register => "Register"@,
        Type::Unregister => "Unregister"@,
        Type::Get => "Get"@,
        Type::GetNext => "GetNext"@,
        Type::GetBulk => "GetBulk"@,
        Type::TestSet => "TestSet"@,
        Type::CommitSet => "CommitSet"@,
        Type::UndoSet => "UndoSet"@,
        Type::CleanupSet => "CleanupSet"@,
        Type::Notify => "Notify"@,
        Type::Ping => "Ping"@,
        Type::IndexAllocate => "IndexAllocate"@,
        Type::IndexDeallocate => "IndexDeallocate"@,
        Type::AddAgentCaps => "AddAgentCaps"@,
        Type::RemoveAgentCaps => "RemoveAgentCaps"@,
        Type::Response => "Response"@,
    }
}

impl Type {
    /// The name of the kind of message.
    pub fn name(&self) -> (name: &'static str)
        ensures
            name@ == message_name(*self),
    {
        match *self {
            Type::Open => "Open",
            Type::Close => "Close",
            Type::Register => "Register",
            Type::Unregister => "Unregister",
            Type::Get => "Get",
            Type::GetNext => "GetNext",
            Type::GetBulk => "GetBulk",
            Type::TestSet => "TestSet",
            Type::CommitSet => "CommitSet",
            Type::UndoSet => "UndoSet",
            Type::CleanupSet => "CleanupSet",
            Type::Notify => "Notify",
            Type::Ping => "Ping",
            Type::IndexAllocate => "IndexAllocate",
            Type::IndexDeallocate => "IndexDeallocate",
            Type::AddAgentCaps => "AddAgentCaps",
            Type::RemoveAgentCaps => "RemoveAgentCaps",
            Type::Response => "Response",
        }
    }
}

/// What every message begins with.
#[derive(Clone, Copy, Debug, PartialEq, Eq, Structural)]
pub struct Header {
    pub version: u8,
    pub ty: Type,
    pub flags: u8,
    pub session_id: u32,
    pub transaction_id: u32,
    pub packet_id: u32,
    pub payload_length: u32,
}

/// The length of a header.
pub const HEADER_SIZE: usize = 20;

/// The fields of the header at the start of some bytes, if there is one: the
/// version, the kind of message, the flags, a byte that does not matter, and the
/// numbers of the session, of the transaction and of the packet, and how long
/// the rest of the message is.
pub open spec fn header_fields(bytes: Seq<u8>) -> Option<(u8, u8, u8, u32, u32, u32, u32)> {
    if bytes.len() < HEADER_SIZE || bytes[1] < 1 || bytes[1] > 18 {
        None
    } else {
        let high_first = network_order(bytes[2]);
        Some(
            (
                bytes[0],
                bytes[1],
                bytes[2],
                u32_at(bytes, 4, high_first),
                u32_at(bytes, 8, high_first),
                u32_at(bytes, 12, high_first),
                u32_at(bytes, 16, high_first),
            ),
        )
    }
}

/// The header at the start of some bytes, if there is one.
pub open spec fn header_in(bytes: Seq<u8>) -> Option<Header> {
    match header_fields(bytes) {
        None => None,
        Some(fields) => Some(
            Header {
                version: fields.0,
                ty: type_of(fields.1),
                flags: fields.2,
                session_id: fields.3,
                transaction_id: fields.4,
                packet_id: fields.5,
                payload_length: fields.6,
            },
        ),
    }
}

/// Calls `agentx::pdu::Header::from_bytes`. It reads the first twenty bytes, and
/// fails exactly if there are fewer or the second one stands for no kind of
/// message.
#[verifier::external_body]
fn parse_header(bytes: &[u8]) -> (fields: Option<(u8, u8, u8, u32, u32, u32, u32)>)
    ensures
        fields == header_fields(bytes@),
{
    let h = pdu::Header::from_bytes(bytes).ok()?;
    let ids = (h.session_id, h.transaction_id, h.packet_id);
    Some((h.version, h.ty.to_byte(), h.flags, ids.0, ids.1, ids.2, h.payload_length))
}

impl Header {
    /// The header at the start of some bytes.
    pub fn from_bytes(bytes: &[u8]) -> (header: Option<Self>)
        ensures
            header == header_in(bytes@),
    {
        match parse_header(bytes) {
            None => None,
            Some((version, code, flags, session_id, transaction_id, packet_id, payload_length)) => {
                Some(
                    Self {
                        version,
                        ty: type_of_code(code),
                        flags,
                        session_id,
                        transaction_id,
                        packet_id,
                        payload_length,
                    },
                )
            },
        }
    }
}

/// The components that a leading byte other than zero stands for.
pub open spec fn prefix_components(prefix: u8) -> Seq<u32> {
    if prefix == 0 {
        seq![]
    } else {
        seq![1u32, 3, 6, 1, prefix as u32]
    }
}

/// The length of the identifier at the start of some bytes.
pub open spec fn oid_size(bytes: Seq<u8>) -> int {
    4 + 4 * bytes[0]
}

/// The identifier at the start of some bytes, if there is one: how many
/// components are written out, a prefix, whether a search may find the
/// identifier itself, a byte that does not matter, and the components.
pub open spec fn oid_in(bytes: Seq<u8>, high_first: bool) -> Option<OidView> {
    if bytes.len() < 4 || bytes.len() < oid_size(bytes) {
        None
    } else {
        Some(
            OidView {
                components: prefix_components(bytes[1]) + Seq::new(
                    bytes[0] as nat,
                    |i: int| u32_at(bytes, 4 + 4 * i, high_first),
                ),
                inclusive: bytes[2],
            },
        )
    }
}

/// The ranges that some bytes are made of, if they are: each of them an
/// identifier to start from, then one to stop at.
pub open spec fn ranges_in(bytes: Seq<u8>, high_first: bool) -> Option<Seq<RangeView>>
    decreases bytes.len(),
{
    if bytes.len() == 0 {
        Some(seq![])
    } else {
        match oid_in(bytes, high_first) {
            None => None,
            Some(start) => {
                let behind = bytes.skip(oid_size(bytes));
                match oid_in(behind, high_first) {
                    None => None,
                    Some(end) => match ranges_in(behind.skip(oid_size(behind)), high_first) {
                        None => None,
                        Some(others) => Some(seq![RangeView { start, end }] + others),
                    },
                }
            },
        }
    }
}

/// The text of an identifier with its flag.
pub open spec fn oid_text(oid: OidView) -> Seq<char> {
    crate::text::dotted(oid.components) + " (include: "@ + crate::text::decimal(
        oid.inclusive as nat,
    ) + ")"@
}

/// Whether some texts are those of the identifiers of some ranges.
pub open spec fn texts_of(texts: Seq<(String, String)>, ranges: Seq<RangeView>) -> bool {
    &&& texts.len() == ranges.len()
    &&& forall|i: int|
        0 <= i < texts.len() ==> (#[trigger] texts[i]).0@ == oid_text(ranges[i].start)
            && texts[i].1@ == oid_text(ranges[i].end)
}

/// The ranges of a request whose ranges begin at position `from`.
pub open spec fn requested_ranges(bytes: Seq<u8>, from: int) -> Option<Seq<RangeView>> {
    if header_in(bytes) is None || bytes.len() < from {
        None
    } else {
        ranges_in(bytes.skip(from), network_order(bytes[2]))
    }
}

/// Calls `agentx::pdu::Get::from_bytes`, and hands out each identifier of the
/// request as the text that its debug formatting gives. Without a context the
/// ranges are all that follows the header; the call fails exactly if there is
/// no header or what follows it is no list of ranges.
#[verifier::external_body]
fn parse_get(bytes: &[u8]) -> (texts: Option<Vec<(String, String)>>)
    requires
        bytes@.len() > 2 ==> !names_context(bytes@[2]),
    ensures
        texts is Some <==> requested_ranges(bytes@, 20) is Some,
        texts is Some ==> texts_of(texts->0@, requested_ranges(bytes@, 20)->0),
{
    let request = pdu::Get::from_bytes(bytes).ok()?;
    let texts = request.sr.0.iter().map(|r| (format!("{:?}", r.start), format!("{:?}", r.end)));
    Some(texts.collect())
}

/// A bulk request with the texts of its identifiers.
struct BulkTexts {
    non_repeaters: u16,
    max_repetitions: u16,
    texts: Vec<(String, String)>,
}

/// Calls `agentx::pdu::GetBulk::from_bytes`, and hands out each identifier of the
/// request as the text that its debug formatting gives. Without a context two
/// numbers of two bytes follow the header, and then the ranges; the call fails
/// exactly if there is no header or what follows it is something else.
#[verifier::external_body]
fn parse_get_bulk(bytes: &[u8]) -> (request: Option<BulkTexts>)
    requires
        bytes@.len() > 2 ==> !names_context(bytes@[2]),
    ensures
        request is Some <==> requested_ranges(bytes@, 24) is Some,
        request is Some ==> request->0.non_repeaters == u16_at(bytes@, 20, network_order(bytes@[2])),
        request is Some ==> request->0.max_repetitions == u16_at(bytes@, 22, network_order(bytes@[2])),
        request is Some ==> texts_of(request->0.texts@, requested_ranges(bytes@, 24)->0),
{
    let request = pdu::GetBulk::from_bytes(bytes).ok()?;
    let (non_repeaters, max_repetitions) = (request.non_repeaters, request.max_repetitions);
    let texts = request.sr.0.iter().map(|r| (format!("{:?}", r.start), format!("{:?}", r.end)));
    Some(BulkTexts { non_repeaters, max_repetitions, texts: texts.collect() })
}

/// Reads an identifier from its text.
fn read_oid(text: &String, Ghost(expected): Ghost<OidView>) -> (oid: Oid)
    requires
        text@ == oid_text(expected),
    ensures
        oid@ == expected,
{
    let chars: Vec<char> = characters(text.as_str());
    let ghost dotted = crate::text::dotted(expected.components);
    let ghost flag = crate::text::decimal(expected.inclusive as nat);
    proof {
        reveal_strlit(" (include: ");
        reveal_strlit(")");
        crate::text::dotted_is_made_of_digits_and_dots(expected.components);
        assert(chars@ =~= dotted + " (include: "@ + flag + ")"@);
        assert(chars@[dotted.len() as int] == ' ');
    }
    let count: usize = chars.len();
    let mut at: usize = 0;
    while chars[at] != ' '
        invariant
            at <= dotted.len() < chars@.len() == count,
            chars@[dotted.len() as int] == ' ',
            forall|i: int| 0 <= i < dotted.len() ==> #[trigger] chars@[i] == dotted[i],
            forall|i: int|
                0 <= i < dotted.len() ==> crate::text::is_digit(#[trigger] dotted[i]) || dotted[i]
                    == '.',
        decreases dotted.len() - at,
    {
        at = at + 1;
    }
    assert(at == dotted.len());
    proof {
        assert(chars@.subrange(0, at as int) =~= dotted);
        let one = seq![expected.inclusive as u32];
        assert(one.drop_last() =~= seq![]);
        assert(crate::text::dotted(one) =~= flag);
        assert(chars@.subrange(at + 11, chars@.len() - 1) =~= flag);
    }
    let components: Vec<u32> = read_dotted(&chars, 0, at, Ghost(expected.components));
    let ghost flags_expected = seq![expected.inclusive as u32];
    let flags: Vec<u32> = read_dotted(&chars, at + 11, count - 1, Ghost(flags_expected));
    Oid { components, inclusive: flags[0] as u8 }
}

/// Reads ranges from the texts of their identifiers.
fn read_ranges(
    texts: &Vec<(String, String)>,
    Ghost(expected): Ghost<Seq<RangeView>>,
) -> (ranges: Vec<SearchRange>)
    requires
        texts_of(texts@, expected),
    ensures
        crate::mib::range_views(ranges@) == expected,
{
    let mut ranges: Vec<SearchRange> = Vec::new();
    let mut i: usize = 0;
    while i < texts.len()
        invariant
            i <= texts@.len(),
            texts_of(texts@, expected),
            crate::mib::range_views(ranges@) == expected.take(i as int),
        decreases texts@.len() - i,
    {
        let start: Oid = read_oid(&texts[i].0, Ghost(expected[i as int].start));
        let end: Oid = read_oid(&texts[i].1, Ghost(expected[i as int].end));
        let ghost before = ranges@;
        ranges.push(SearchRange { start, end });
        proof {
            assert(crate::mib::range_views(ranges@) =~= crate::mib::range_views(before).push(
                expected[i as int],
            ));
            assert(expected.take(i + 1) =~= expected.take(i as int).push(expected[i as int]));
        }
        i = i + 1;
    }
    assert(expected.take(i as int) =~= expected);
    ranges
}

/// The ranges of a request to look up or to search.
pub(crate) fn get_ranges(bytes: &[u8]) -> (ranges: Option<Vec<SearchRange>>)
    requires
        bytes@.len() > 2 ==> !names_context(bytes@[2]),
    ensures
        match ranges {
            Some(ranges) => requested_ranges(bytes@, 20) == Some(
                crate::mib::range_views(ranges@),
            ),
            None => requested_ranges(bytes@, 20) is None,
        },
{
    match parse_get(bytes) {
        None => None,
        Some(texts) => Some(read_ranges(&texts, Ghost(requested_ranges(bytes@, 20)->0))),
    }
}

/// A bulk request: how many of its ranges are searched once, how often the
/// others are, and the ranges.
pub(crate) fn get_bulk_ranges(bytes: &[u8]) -> (request: Option<(u16, u16, Vec<SearchRange>)>)
    requires
        bytes@.len() > 2 ==> !names_context(bytes@[2]),
    ensures
        match request {
            Some((non_repeaters, max_repetitions, ranges)) => {
                &&& requested_ranges(bytes@, 24) == Some(crate::mib::range_views(ranges@))
                &&& non_repeaters == u16_at(bytes@, 20, network_order(bytes@[2]))
                &&& max_repetitions == u16_at(bytes@, 22, network_order(bytes@[2]))
            },
            None => requested_ranges(bytes@, 24) is None,
        },
{
    match parse_get_bulk(bytes) {
        None => None,
        Some(request) => {
            let ranges: Vec<SearchRange> = read_ranges(
                &request.texts,
                Ghost(requested_ranges(bytes@, 24)->0),
            );
            Some((request.non_repeaters, request.max_repetitions, ranges))
        },
    }
}

/// Whether values of this kind are strings.
pub open spec fn is_string(kind: u16) -> bool {
    kind == 4 || kind == 64 || kind == 68
}

/// How many bytes a value of this kind takes up, if that can be told: a string has
/// its length in front, and is filled up to a multiple of four; an identifier has
/// the number of its components in front.
pub open spec fn value_size(kind: u16, value: Seq<u8>, high_first: bool) -> Option<int> {
    if is_string(kind) {
        if value.len() < 4 {
            None
        } else {
            Some(4 + (u32_at(value, 0, high_first) + 3) / 4 * 4)
        }
    } else if kind == 6 {
        if value.len() < 1 {
            None
        } else {
            Some(4 + 4 * value[0] as int)
        }
    } else if kind == 2 || kind == 65 || kind == 66 || kind == 67 {
        Some(4)
    } else if kind == 70 {
        Some(8)
    } else if kind == 5 || kind == 128 || kind == 129 || kind == 130 {
        Some(0)
    } else {
        None
    }
}

/// Whether each string among the values of some bindings is there as a whole, up to
/// the first binding that cannot be made sense of. A binding is the kind of its
/// value and two bytes more, its name, and its value.
pub open spec fn strings_fit(bytes: Seq<u8>, high_first: bool) -> bool
    decreases bytes.len(),
{
    let name_end = 8 + 4 * bytes[4] as int;
    if bytes.len() < 8 || name_end > bytes.len() {
        true
    } else {
        let kind = u16_at(bytes, 0, high_first);
        let value = bytes.skip(name_end);
        match value_size(kind, value, high_first) {
            None => true,
            Some(size) => if is_string(kind) && u32_at(value, 0, high_first) > value.len() - 4 {
                false
            } else {
                size <= value.len() ==> strings_fit(bytes.skip(name_end + size), high_first)
            },
        }
    }
}

/// Whether each string in a request to test a change is there as a whole.
pub open spec fn set_fits(bytes: Seq<u8>) -> bool {
    bytes.len() >= HEADER_SIZE ==> strings_fit(
        bytes.skip(HEADER_SIZE as int),
        network_order(bytes[2]),
    )
}

/// Whether a value of this kind is at the start of some bytes: as many bytes as it
/// takes up, except that a string need not be filled up, and has to be UTF-8.
pub open spec fn is_value(kind: u16, value: Seq<u8>, high_first: bool) -> bool {
    match value_size(kind, value, high_first) {
        None => false,
        Some(size) => if is_string(kind) {
            let length = u32_at(value, 0, high_first) as int;
            length <= value.len() - 4 && vstd::utf8::valid_utf8(value.subrange(4, 4 + length))
        } else {
            size <= value.len()
        },
    }
}

/// The bindings that some bytes are made of, if they are: of each the components of
/// its name and, where its value is an identifier too, the components of that. A
/// binding is the kind of its value and two bytes more, its name, and its value.
pub open spec fn bindings_in(bytes: Seq<u8>, high_first: bool) -> Option<
    Seq<(Seq<u32>, Option<Seq<u32>>)>,
>
    decreases bytes.len(),
{
    let name_end = 8 + 4 * bytes[4] as int;
    if bytes.len() == 0 {
        Some(seq![])
    } else if bytes.len() < 8 || name_end > bytes.len() {
        None
    } else {
        let kind = u16_at(bytes, 0, high_first);
        let value = bytes.skip(name_end);
        if !is_value(kind, value, high_first) || value_size(kind, value, high_first)->0
            > value.len() {
            None
        } else {
            let first = (
                oid_in(bytes.subrange(4, name_end), high_first)->0.components,
                if kind == 6 {
                    Some(oid_in(value, high_first)->0.components)
                } else {
                    None
                },
            );
            let behind = bytes.skip(name_end + value_size(kind, value, high_first)->0);
            match bindings_in(behind, high_first) {
                None => None,
                Some(others) => Some(seq![first] + others),
            }
        }
    }
}

/// The bindings of the request to test a change that some bytes are, if they are
/// one: they are all that follows the header.
pub open spec fn test_set_in(bytes: Seq<u8>) -> Option<Seq<(Seq<u32>, Option<Seq<u32>>)>> {
    if header_in(bytes) is None {
        None
    } else {
        bindings_in(bytes.skip(HEADER_SIZE as int), network_order(bytes[2]))
    }
}

proof fn lemma_strings_fit(bytes: Seq<u8>, high_first: bool)
    requires
        bindings_in(bytes, high_first) is Some,
    ensures
        strings_fit(bytes, high_first),
    decreases bytes.len(),
{
    let name_end = 8 + 4 * bytes[4] as int;
    if bytes.len() >= 8 {
        let value = bytes.skip(name_end);
        let size = value_size(u16_at(bytes, 0, high_first), value, high_first)->0;
        lemma_strings_fit(bytes.skip(name_end + size), high_first);
    }
}

/// The number of two bytes at a position.
pub(crate) fn u16_from(bytes: &[u8], at: usize, high_first: bool) -> (number: u16)
    requires
        at + 2 <= bytes@.len(),
    ensures
        number == u16_at(bytes@, at as int, high_first),
{
    let count: usize = bytes.len();
    assert(at + 2 <= count);
    if high_first {
        bytes[at] as u16 * 0x100 + bytes[at + 1] as u16
    } else {
        bytes[at + 1] as u16 * 0x100 + bytes[at] as u16
    }
}

/// The number of four bytes at a position.
pub(crate) fn u32_from(bytes: &[u8], at: usize, high_first: bool) -> (number: u32)
    requires
        at + 4 <= bytes@.len(),
    ensures
        number == u32_at(bytes@, at as int, high_first),
{
    let count: usize = bytes.len();
    assert(at + 4 <= count);
    let (b0, b1, b2, b3): (u8, u8, u8, u8) = if high_first {
        (bytes[at], bytes[at + 1], bytes[at + 2], bytes[at + 3])
    } else {
        (bytes[at + 3], bytes[at + 2], bytes[at + 1], bytes[at])
    };
    b0 as u32 * 0x100_0000 + b1 as u32 * 0x1_0000 + b2 as u32 * 0x100 + b3 as u32
}

/// How many bytes a value of this kind takes up, if that can be told.
fn size_of_value(kind: u16, value: &[u8], high_first: bool) -> (size: Option<u64>)
    ensures
        match size {
            Some(size) => value_size(kind, value@, high_first) == Some(size as int),
            None => value_size(kind, value@, high_first) is None,
        },
{
    if kind == 4 || kind == 64 || kind == 68 {
        if value.len() < 4 {
            None
        } else {
            Some(4 + (u32_from(value, 0, high_first) as u64 + 3) / 4 * 4)
        }
    } else if kind == 6 {
        if value.len() < 1 {
            None
        } else {
            Some(4 + 4 * value[0] as u64)
        }
    } else if kind == 2 || kind == 65 || kind == 66 || kind == 67 {
        Some(4)
    } else if kind == 70 {
        Some(8)
    } else if kind == 5 || kind == 128 || kind == 129 || kind == 130 {
        Some(0)
    } else {
        None
    }
}

/// Whether each string among the values of some bindings is there as a whole.
fn check_strings(bytes: &[u8], high_first: bool) -> (fit: bool)
    ensures
        fit == strings_fit(bytes@, high_first),
{
    let mut at: usize = 0;
    assert(bytes@.skip(0) =~= bytes@);
    while at < bytes.len()
        invariant
            at <= bytes@.len(),
            strings_fit(bytes@, high_first) == strings_fit(bytes@.skip(at as int), high_first),
        decreases bytes@.len() - at,
    {
        let left: &[u8] = vstd::slice::slice_subrange(bytes, at, bytes.len());
        assert(left@ =~= bytes@.skip(at as int));
        if left.len() < 8 {
            return true;
        }
        let name_end: usize = 8 + 4 * left[4] as usize;
        if name_end > left.len() {
            return true;
        }
        let kind: u16 = u16_from(left, 0, high_first);
        let value: &[u8] = vstd::slice::slice_subrange(left, name_end, left.len());
        assert(value@ =~= left@.skip(name_end as int));
        let size: u64 = match size_of_value(kind, value, high_first) {
            None => {
                return true;
            },
            Some(size) => size,
        };
        if kind == 4 || kind == 64 || kind == 68 {
            if u32_from(value, 0, high_first) as u64 > (value.len() - 4) as u64 {
                return false;
            }
        }
        if size > value.len() as u64 {
            return true;
        }
        assert(left@.skip(name_end + size) =~= bytes@.skip(at + name_end + size));
        at = at + name_end + size as usize;
    }
    assert(bytes@.skip(at as int) =~= seq![]);
    true
}

/// Whether some texts are those of the identifiers of some bindings.
pub open spec fn names_of(
    texts: Seq<(String, Option<String>)>,
    bindings: Seq<(Seq<u32>, Option<Seq<u32>>)>,
) -> bool {
    &&& texts.len() == bindings.len()
    &&& forall|i: int|
        0 <= i < texts.len() ==> {
            &&& (#[trigger] texts[i]).0@ == crate::text::dotted(bindings[i].0)
            &&& texts[i].1 is Some <==> bindings[i].1 is Some
            &&& texts[i].1 matches Some(text) ==> text@ == crate::text::dotted(bindings[i].1->0)
        }
}

/// Calls `agentx::pdu::TestSet::from_bytes`, and hands out of each binding the
/// text of its name and, where its value is an identifier, the text of that, as
/// their display formatting gives them: the components with dots between them.
/// Without a context the bindings are all that follows the header; the call fails
/// exactly if there is no header or what follows it is no list of bindings. It adds
/// to the length that stands in front of a string, which can overflow if the string
/// is not there as a whole.
#[verifier::external_body]
fn parse_test_set(bytes: &[u8]) -> (texts: Option<Vec<(String, Option<String>)>>)
    requires
        bytes@.len() > 2 ==> !names_context(bytes@[2]),
        set_fits(bytes@),
    ensures
        texts is Some <==> test_set_in(bytes@) is Some,
        texts is Some ==> names_of(texts->0@, test_set_in(bytes@)->0),
{
    let request = pdu::TestSet::from_bytes(bytes).ok()?;
    let texts = request.vb.0.iter().map(|binding| (binding.name.to_string(), match &binding.data {
        Data::ObjectIdentifier(id) => Some(id.to_string()),
        _ => None,
    }));
    Some(texts.collect())
}

/// A binding of a request to test a change: the components of its name and,
/// where its value is an identifier too, the components of that.
#[derive(Debug)]
pub struct TestBinding {
    pub name: Vec<u32>,
    pub value: Option<Vec<u32>>,
}

impl View for TestBinding {
    type V = (Seq<u32>, Option<Seq<u32>>);

    open spec fn view(&self) -> (Seq<u32>, Option<Seq<u32>>) {
        (
            self.name@,
            match self.value {
                Some(value) => Some(value@),
                None => None,
            },
        )
    }
}

/// The values of a list of bindings.
pub open spec fn test_views(bindings: Seq<TestBinding>) -> Seq<(Seq<u32>, Option<Seq<u32>>)> {
    bindings.map_values(|binding: TestBinding| binding@)
}

/// Reads dotted numbers that are a whole text.
fn read_components(text: &String, Ghost(expected): Ghost<Seq<u32>>) -> (components: Vec<u32>)
    requires
        text@ == crate::text::dotted(expected),
    ensures
        components@ == expected,
{
    let chars: Vec<char> = characters(text.as_str());
    assert(chars@.subrange(0, chars@.len() as int) =~= chars@);
    read_dotted(&chars, 0, chars.len(), Ghost(expected))
}

/// The bindings of a request to test a change.
pub(crate) fn test_set_bindings(bytes: &[u8]) -> (bindings: Option<Vec<TestBinding>>)
    requires
        bytes@.len() > 2 ==> !names_context(bytes@[2]),
    ensures
        match bindings {
            Some(bindings) => test_set_in(bytes@) == Some(test_views(bindings@)),
            None => test_set_in(bytes@) is None,
        },
{
    if bytes.len() >= HEADER_SIZE {
        let payload: &[u8] = vstd::slice::slice_subrange(bytes, HEADER_SIZE, bytes.len());
        assert(payload@ =~= bytes@.skip(HEADER_SIZE as int));
        if !check_strings(payload, bytes[2] & NETWORK_ORDER != 0) {
            proof {
                if test_set_in(bytes@) is Some {
                    lemma_strings_fit(payload@, network_order(bytes@[2]));
                }
            }
            return None;
        }
    }
    let texts: Vec<(String, Option<String>)> = match parse_test_set(bytes) {
        None => {
            return None;
        },
        Some(texts) => texts,
    };
    let ghost expected = test_set_in(bytes@)->0;
    let mut bindings: Vec<TestBinding> = Vec::new();
    let mut i: usize = 0;
    while i < texts.len()
        invariant
            i <= texts@.len(),
            names_of(texts@, expected),
            test_views(bindings@) == expected.take(i as int),
        decreases texts@.len() - i,
    {
        let name: Vec<u32> = read_components(&texts[i].0, Ghost(expected[i as int].0));
        let value: Option<Vec<u32>> = match &texts[i].1 {
            Some(text) => Some(read_components(text, Ghost(expected[i as int].1->0))),
            None => None,
        };
        let ghost before = bindings@;
        bindings.push(TestBinding { name, value });
        proof {
            assert(bindings@.last()@ == expected[i as int]);
            assert(test_views(bindings@) =~= test_views(before).push(expected[i as int]));
            assert(expected.take(i + 1) =~= expected.take(i as int).push(expected[i as int]));
        }
        i = i + 1;
    }
    assert(expected.take(i as int) =~= expected);
    Some(bindings)
}

/// Whether some bytes are a request to close a session: a header, and behind it
/// one of six reasons.
pub open spec fn is_close(bytes: Seq<u8>) -> bool {
    header_in(bytes) is Some && bytes.len() > 20 && 1 <= bytes[20] <= 6
}

/// Calls `agentx::pdu::Close::from_bytes`. It fails exactly if there is no header,
/// or no byte behind it, or that byte stands for no reason.
#[verifier::external_body]
pub(crate) fn parse_close(bytes: &[u8]) -> (parsed: bool)
    ensures
        parsed == is_close(bytes@),
{
    pdu::Close::from_bytes(bytes).is_ok()
}

/// Calls `agentx::pdu::Ping::from_bytes`. Without a context it fails exactly if
/// there is no header.
#[verifier::external_body]
pub(crate) fn parse_ping(bytes: &[u8]) -> (parsed: bool)
    requires
        bytes@.len() > 2 ==> !names_context(bytes@[2]),
    ensures
        parsed == (header_in(bytes@) is Some),
{
    pdu::Ping::from_bytes(bytes).is_ok()
}

/// The errors that a response can report.
#[derive(Clone, Copy, Debug, PartialEq, Eq, Structural)]
pub enum ResError {
    NoAgentXError,
    OpenFailed,
    NotOpen,
    IndexWrongType,
    IndexAlreadyAllocated,
    IndexNoneAvailable,
    IndexNotAllocated,
    UnsupportedContext,
    DuplicateRegistration,
    UnknownRegistration,
    UnknownAgentCaps,
    ParseError,
    RequestDenied,
    ProcessingError,
}

/// The number of an error.
pub open spec fn code_of(error: ResError) -> u16 {
    match error {
        ResError::NoAgentXError => 0,
        ResError::OpenFailed => 256,
        ResError::NotOpen => 257,
        ResError::IndexWrongType => 258,
        ResError::IndexAlreadyAllocated => 259,
        ResError::IndexNoneAvailable => 260,
        ResError::IndexNotAllocated => 261,
        ResError::UnsupportedContext => 262,
        ResError::DuplicateRegistration => 263,
        ResError::UnknownRegistration => 264,
        ResError::UnknownAgentCaps => 265,
        ResError::ParseError => 266,
        ResError::RequestDenied => 267,
        ResError::ProcessingError => 268,
    }
}

/// The name of the error with this number.
pub open spec fn error_name(code: u16) -> Seq<char> {
    match code {
        256 => "OpenFailed"@,
        257 => "NotOpen"@,
        258 => "IndexWrongType"@,
        259 => "IndexAlreadyAllocated"@,
        260 => "IndexNoneAvailable"@,
        261 => "IndexNotAllocated"@,
        262 => "UnsupportedContext"@,
        263 => "DuplicateRegistration"@,
        264 => "UnknownRegistration"@,
        265 => "UnknownAgentCaps"@,
        266 => "ParseError"@,
        267 => "RequestDenied"@,
        268 => "ProcessingError"@,
        _ => "NoAgentXError"@,
    }
}

/// Whether a number is that of an error.
pub open spec fn is_error_code(code: u16) -> bool {
    code == 0 || 256 <= code <= 268
}

impl ResError {
    /// The number of the error.
    pub fn code(&self) -> (code: u16)
        ensures
            code == code_of(*self),
    {
        match *self {
            ResError::NoAgentXError => 0,
            ResError::OpenFailed => 256,
            ResError::NotOpen => 257,
            ResError::IndexWrongType => 258,
            ResError::IndexAlreadyAllocated => 259,
            ResError::IndexNoneAvailable => 260,
            ResError::IndexNotAllocated => 261,
            ResError::UnsupportedContext => 262,
            ResError::DuplicateRegistration => 263,
            ResError::UnknownRegistration => 264,
            ResError::UnknownAgentCaps => 265,
            ResError::ParseError => 266,
            ResError::RequestDenied => 267,
            ResError::ProcessingError => 268,
        }
    }

    /// The name of the error.
    pub fn name(&self) -> (name: &'static str)
        ensures
            name@ == error_name(code_of(*self)),
    {
        match *self {
            ResError::NoAgentXError => "NoAgentXError",
            ResError::OpenFailed => "OpenFailed",
            ResError::NotOpen => "NotOpen",
            ResError::IndexWrongType => "IndexWrongType",
            ResError::IndexAlreadyAllocated => "IndexAlreadyAllocated",
            ResError::IndexNoneAvailable => "IndexNoneAvailable",
            ResError::IndexNotAllocated => "IndexNotAllocated",
            ResError::UnsupportedContext => "UnsupportedContext",
            ResError::DuplicateRegistration => "DuplicateRegistration",
            ResError::UnknownRegistration => "UnknownRegistration",
            ResError::UnknownAgentCaps => "UnknownAgentCaps",
            ResError::ParseError => "ParseError",
            ResError::RequestDenied => "RequestDenied",
            ResError::ProcessingError => "ProcessingError",
        }
    }

    /// The error with this number.
    pub fn from_code(code: u16) -> (error: Option<Self>)
        ensures
            error is Some <==> is_error_code(code),
            error matches Some(error) ==> code_of(error) == code,
    {
        let error: ResError = match code {
            0 => ResError::NoAgentXError,
            256 => ResError::OpenFailed,
            257 => ResError::NotOpen,
            258 => ResError::IndexWrongType,
            259 => ResError::IndexAlreadyAllocated,
            260 => ResError::IndexNoneAvailable,
            261 => ResError::IndexNotAllocated,
            262 => ResError::UnsupportedContext,
            263 => ResError::DuplicateRegistration,
            264 => ResError::UnknownRegistration,
            265 => ResError::UnknownAgentCaps,
            266 => ResError::ParseError,
            267 => ResError::RequestDenied,
            268 => ResError::ProcessingError,
            _ => {
                return None;
            },
        };
        Some(error)
    }
}

/// The number of an error that some bytes begin with, if they do.
pub open spec fn error_code_in(bytes: Seq<u8>, high_first: bool) -> Option<u16> {
    if bytes.len() >= 2 && is_error_code(u16_at(bytes, 0, high_first)) {
        Some(u16_at(bytes, 0, high_first))
    } else {
        None
    }
}

/// Calls `agentx::pdu::ResError::from_bytes` and hands out the number of the error
/// that it gives. It reads two bytes, and fails exactly if there are fewer or
/// they are not the number of an error.
#[verifier::external_body]
fn parse_error_code(bytes: &[u8], high_first: bool) -> (code: Option<u16>)
    ensures
        code == error_code_in(bytes@, high_first),
{
    let network = ByteOrder::BigEndian;
    let little = ByteOrder::LittleEndian;
    let order = if high_first { &network } else { &little };
    let error = pdu::ResError::from_bytes(bytes, order).ok()?;
    Some(u16::from_be_bytes(error.to_bytes(&network)))
}

/// The error whose number some bytes begin with.
pub(crate) fn error_in(bytes: &[u8], high_first: bool) -> (error: Option<ResError>)
    ensures
        error is Some <==> error_code_in(bytes@, high_first) is Some,
        error matches Some(error) ==> error_code_in(bytes@, high_first) == Some(code_of(error)),
{
    match parse_error_code(bytes, high_first) {
        None => None,
        Some(code) => ResError::from_code(code),
    }
}

/// The bytes of a header.
pub open spec fn header_bytes(
    code: u8,
    flags: u8,
    session_id: u32,
    transaction_id: u32,
    packet_id: u32,
    payload_length: u32,
) -> Seq<u8> {
    let high_first = network_order(flags);
    seq![1u8, code, flags, 0u8] + u32_bytes(session_id, high_first) + u32_bytes(
        transaction_id,
        high_first,
    ) + u32_bytes(packet_id, high_first) + u32_bytes(payload_length, high_first)
}

/// Reading a header gives back what was written, whatever follows it.
pub proof fn a_written_header_is_read_back(
    code: u8,
    flags: u8,
    session_id: u32,
    transaction_id: u32,
    packet_id: u32,
    payload_length: u32,
    payload: Seq<u8>,
)
    requires
        1 <= code <= 18,
    ensures
        header_in(
            header_bytes(code, flags, session_id, transaction_id, packet_id, payload_length)
                + payload,
        ) == Some(
            Header {
                version: 1,
                ty: type_of(code),
                flags,
                session_id,
                transaction_id,
                packet_id,
                payload_length,
            },
        ),
{
    let high_first = network_order(flags);
    let bytes = header_bytes(code, flags, session_id, transaction_id, packet_id, payload_length)
        + payload;
    assert(bytes.subrange(4, 8) =~= u32_bytes(session_id, high_first));
    assert(bytes.subrange(8, 12) =~= u32_bytes(transaction_id, high_first));
    assert(bytes.subrange(12, 16) =~= u32_bytes(packet_id, high_first));
    assert(bytes.subrange(16, 20) =~= u32_bytes(payload_length, high_first));
    numbers_are_read_as_they_were_written(bytes, 4, session_id, high_first);
    numbers_are_read_as_they_were_written(bytes, 8, transaction_id, high_first);
    numbers_are_read_as_they_were_written(bytes, 12, packet_id, high_first);
    numbers_are_read_as_they_were_written(bytes, 16, payload_length, high_first);
}

/// The bytes of numbers of four bytes.
pub open spec fn component_bytes(components: Seq<u32>, high_first: bool) -> Seq<u8>
    decreases components.len(),
{
    if components.len() == 0 {
        seq![]
    } else {
        component_bytes(components.drop_last(), high_first) + u32_bytes(
            components.last(),
            high_first,
        )
    }
}

/// The bytes of an identifier.
pub open spec fn oid_bytes(components: Seq<u32>, high_first: bool) -> Seq<u8> {
    seq![components.len() as u8, 0u8, 0u8, 0u8] + component_bytes(components, high_first)
}

/// Reading an identifier gives back the components that were written, whatever
/// follows them.
pub proof fn a_written_identifier_is_read_back(
    components: Seq<u32>,
    high_first: bool,
    rest: Seq<u8>,
)
    requires
        components.len() <= 255,
    ensures
        oid_in(oid_bytes(components, high_first) + rest, high_first) == Some(
            OidView { components, inclusive: 0 },
        ),
        oid_size(oid_bytes(components, high_first) + rest) == oid_bytes(
            components,
            high_first,
        ).len(),
{
    let bytes = oid_bytes(components, high_first) + rest;
    let read = oid_in(bytes, high_first)->0.components;
    component_bytes_are_four_each(components, high_first);
    assert forall|i: int| 0 <= i < components.len() implies u32_at(bytes, 4 + 4 * i, high_first)
        == components[i] by {
        lemma_component_bytes_at(components, high_first, i);
        let part = component_bytes(components, high_first).subrange(4 * i, 4 * i + 4);
        assert(bytes.subrange(4 + 4 * i, 4 + 4 * i + 4) =~= part);
        numbers_are_read_as_they_were_written(bytes, 4 + 4 * i, components[i], high_first);
    }
    assert(read =~= components);
}

/// Each component takes up four bytes.
pub proof fn component_bytes_are_four_each(components: Seq<u32>, high_first: bool)
    ensures
        component_bytes(components, high_first).len() == 4 * components.len(),
    decreases components.len(),
{
    if components.len() > 0 {
        component_bytes_are_four_each(components.drop_last(), high_first);
    }
}

proof fn lemma_component_bytes_at(components: Seq<u32>, high_first: bool, i: int)
    requires
        0 <= i < components.len(),
    ensures
        component_bytes(components, high_first).len() == 4 * components.len(),
        component_bytes(components, high_first).subrange(4 * i, 4 * i + 4) == u32_bytes(
            components[i],
            high_first,
        ),
    decreases components.len(),
{
    let init = components.drop_last();
    let all = component_bytes(components, high_first);
    component_bytes_are_four_each(init, high_first);
    if i < init.len() {
        lemma_component_bytes_at(init, high_first, i);
        assert(all.subrange(4 * i, 4 * i + 4) =~= component_bytes(init, high_first).subrange(
            4 * i,
            4 * i + 4,
        ));
    } else {
        assert(all.subrange(4 * i, 4 * i + 4) =~= u32_bytes(components[i], high_first));
    }
}

/// The bytes of a variable: the kind of its value, two bytes that do not matter,
/// its name, and the value itself where it is a number.
pub open spec fn var_bytes(var: VarBindView, high_first: bool) -> Seq<u8> {
    let name = oid_bytes(var.name.components, high_first);
    match var.data {
        Value::Integer(n) => u16_bytes(2, high_first) + seq![0u8, 0u8] + name + u32_bytes(
            if n >= 0 {
                n as u32
            } else {
                (n + 0x1_0000_0000) as u32
            },
            high_first,
        ),
        Value::NoSuchObject => u16_bytes(128, high_first) + seq![0u8, 0u8] + name,
        Value::NoSuchInstance => u16_bytes(129, high_first) + seq![0u8, 0u8] + name,
        Value::EndOfMibView => u16_bytes(130, high_first) + seq![0u8, 0u8] + name,
    }
}

/// The bytes of variables.
pub open spec fn vars_bytes(vars: Seq<VarBindView>, high_first: bool) -> Seq<u8>
    decreases vars.len(),
{
    if vars.len() == 0 {
        seq![]
    } else {
        vars_bytes(vars.drop_last(), high_first) + var_bytes(vars.last(), high_first)
    }
}

/// A response: what it answers to, how that went, and the variables asked for.
#[derive(Debug)]
pub struct Response {
    pub flags: u8,
    pub session_id: u32,
    pub transaction_id: u32,
    pub packet_id: u32,
    pub res_error: ResError,
    pub res_index: u16,
    pub vb: Option<Vec<VarBind>>,
}

/// The value of a [`Response`].
pub struct ResponseView {
    pub flags: u8,
    pub session_id: u32,
    pub transaction_id: u32,
    pub packet_id: u32,
    pub res_error: ResError,
    pub res_index: u16,
    pub vars: Seq<VarBindView>,
}

impl View for Response {
    type V = ResponseView;

    open spec fn view(&self) -> ResponseView {
        ResponseView {
            flags: self.flags,
            session_id: self.session_id,
            transaction_id: self.transaction_id,
            packet_id: self.packet_id,
            res_error: self.res_error,
            res_index: self.res_index,
            vars: match self.vb {
                Some(vars) => crate::mib::var_views(vars@),
                None => seq![],
            },
        }
    }
}

/// What follows the header of a response: four bytes of zero, the numbers of
/// the error and of the variable that it is about, and the variables.
pub open spec fn response_payload(response: ResponseView, code: u16) -> Seq<u8> {
    let high_first = network_order(response.flags);
    seq![0u8, 0u8, 0u8, 0u8] + u16_bytes(code, high_first) + u16_bytes(
        response.res_index,
        high_first,
    ) + vars_bytes(response.vars, high_first)
}

/// Whether a response can be written: no name has more components than a byte
/// can count, and its length can be counted by four bytes.
pub open spec fn can_be_written(response: ResponseView) -> bool {
    &&& forall|i: int|
        0 <= i < response.vars.len() ==> (#[trigger] response.vars[i]).name.components.len() <= 255
    &&& response_payload(response, 0).len() <= u32::MAX
}

/// The bytes of a response that reports the error with this number.
pub open spec fn response_bytes(response: ResponseView, code: u16) -> Seq<u8> {
    header_bytes(
        18,
        response.flags,
        response.session_id,
        response.transaction_id,
        response.packet_id,
        response_payload(response, code).len() as u32,
    ) + response_payload(response, code)
}

/// Builds an `agentx::pdu::Response` and calls `agentx::pdu::Response::to_bytes`; the
/// number of the error, as two bytes, is turned into that of `agentx` by
/// `agentx::pdu::ResError::from_bytes`. Writing succeeds if no name has more than 255
/// components, which `agentx::encodings::ID::try_from` accepts, and if the length of
/// what follows the header is a number of four bytes.
#[verifier::external_body]
fn encode_response(response: &Response, code: &[u8], vars: &Vec<VarBind>) -> (written: Option<
    Vec<u8>,
>)
    requires
        can_be_written(response@),
        code@ == u16_bytes(code_of(response.res_error), true),
        crate::mib::var_views(vars@) == response@.vars,
    ensures
        written is Some,
        written->0@ == response_bytes(response@, code_of(response.res_error)),
{
    let mut out = pdu::Response::new();
    out.header.flags = response.flags;
    out.header.session_id = response.session_id;
    out.header.transaction_id = response.transaction_id;
    out.header.packet_id = response.packet_id;
    out.res_error = pdu::ResError::from_bytes(code, &ByteOrder::BigEndian).ok()?;
    out.res_index = response.res_index;
    out.vb = vars.iter().map(|var| Some(Binding::new(
        ID::try_from(var.name.components.clone()).ok()?, match var.data {
            Value::Integer(n) => Data::Integer(n), Value::NoSuchObject => Data::NoSuchObject,
            Value::NoSuchInstance => Data::NoSuchInstance, Value::EndOfMibView => Data::EndOfMibView,
        },
    ))).collect::<Option<_>>().map(VarBindList);
    out.to_bytes().ok()
}

/// Writes a response.
pub(crate) fn write_response(response: &Response) -> (bytes: Vec<u8>)
    requires
        can_be_written(response@),
    ensures
        bytes@ == response_bytes(response@, code_of(response.res_error)),
{
    let number: u16 = response.res_error.code();
    let code: Vec<u8> = vec![(number / 256) as u8, (number % 256) as u8];
    assert(code@ =~= u16_bytes(number, true));
    match &response.vb {
        Some(vars) => encode_response(response, code.as_slice(), vars).unwrap(),
        None => {
            let vars: Vec<VarBind> = Vec::new();
            assert(crate::mib::var_views(vars@) =~= seq![]);
            encode_response(response, code.as_slice(), &vars).unwrap()
        },
    }
}

/// Some bytes with as many zeros behind them as make their number a multiple of
/// four.
pub open spec fn padded(bytes: Seq<u8>) -> Seq<u8> {
    bytes + Seq::new(((4 - bytes.len() % 4) % 4) as nat, |i: int| 0u8)
}

/// What follows the header of a request to open a session: how many seconds the
/// master agent should wait for answers, three bytes and an identifier of zeros,
/// and a description with its length.
pub open spec fn open_payload(timeout: u8, description: Seq<char>, high_first: bool) -> Seq<u8> {
    let text = vstd::utf8::encode_utf8(description);
    seq![timeout, 0u8, 0u8, 0u8, 0u8, 0u8, 0u8, 0u8] + u32_bytes(text.len() as u32, high_first)
        + padded(text)
}

/// The bytes of a request to open a session.
pub open spec fn open_bytes(
    flags: u8,
    packet_id: u32,
    timeout: u8,
    description: Seq<char>,
) -> Seq<u8> {
    let payload = open_payload(timeout, description, network_order(flags));
    header_bytes(1, flags, 0, 0, packet_id, payload.len() as u32) + payload
}

/// Builds an `agentx::pdu::Open` without an identifier and calls
/// `agentx::pdu::Open::to_bytes`. The call succeeds for every description whose
/// length with what stands around it can be counted by four bytes.
#[verifier::external_body]
pub(crate) fn write_open(flags: u8, packet_id: u32, timeout: u8, description: &str) -> (written:
    Option<Vec<u8>>)
    requires
        vstd::utf8::encode_utf8(description@).len() <= 0xffff_0000,
    ensures
        written is Some,
        written->0@ == open_bytes(flags, packet_id, timeout, description@),
{
    let mut out = pdu::Open::new(ID::default(), description);
    out.timeout = std::time::Duration::from_secs(u64::from(timeout));
    out.header.flags = flags;
    out.header.packet_id = packet_id;
    out.to_bytes().ok()
}

/// What follows the header of a request to register a part of the tree of
/// identifiers: a zero, the priority, two zeros, and the root of that part.
pub open spec fn register_payload(priority: u8, root: Seq<u32>, high_first: bool) -> Seq<u8> {
    seq![0u8, priority, 0u8, 0u8] + oid_bytes(root, high_first)
}

/// The bytes of a request to register a part of the tree of identifiers.
pub open spec fn register_bytes(
    flags: u8,
    session_id: u32,
    packet_id: u32,
    priority: u8,
    root: Seq<u32>,
) -> Seq<u8> {
    let payload = register_payload(priority, root, network_order(flags));
    header_bytes(3, flags, session_id, 0, packet_id, payload.len() as u32) + payload
}

/// Builds an `agentx::pdu::Register` and calls `agentx::pdu::Register::to_bytes`. The
/// call succeeds for every root of at most 255 components, which is what
/// `agentx::encodings::ID::try_from` accepts.
#[verifier::external_body]
pub(crate) fn write_register(
    flags: u8,
    session_id: u32,
    packet_id: u32,
    priority: u8,
    root: Vec<u32>,
) -> (written: Option<Vec<u8>>)
    requires
        root@.len() <= 255,
    ensures
        written is Some,
        written->0@ == register_bytes(flags, session_id, packet_id, priority, root@),
{
    let mut out = pdu::Register::new(ID::try_from(root).ok()?);
    out.header.session_id = session_id;
    out.header.flags = flags;
    out.header.packet_id = packet_id;
    out.priority = priority;
    out.to_bytes().ok()
}

/// A response has the number of its error and that of the variable that it is about
/// behind its header, and then the variables.
pub proof fn a_response_reports_its_error(response: ResponseView, code: u16)
    ensures
        response_bytes(response, code).len() >= 28,
        u16_at(response_bytes(response, code), 24, network_order(response.flags)) == code,
        u16_at(response_bytes(response, code), 26, network_order(response.flags))
            == response.res_index,
        response_bytes(response, code).skip(28) == vars_bytes(
            response.vars,
            network_order(response.flags),
        ),
{
    let high_first = network_order(response.flags);
    let bytes = response_bytes(response, code);
    let head = header_bytes(
        18,
        response.flags,
        response.session_id,
        response.transaction_id,
        response.packet_id,
        response_payload(response, code).len() as u32,
    );
    let payload = response_payload(response, code);
    let index = response.res_index;
    assert(head.len() == 20);
    assert(bytes[24] == payload[4] && bytes[25] == payload[5]);
    assert(bytes[26] == payload[6] && bytes[27] == payload[7]);
    assert(payload[4] == u16_bytes(code, high_first)[0]);
    assert(payload[5] == u16_bytes(code, high_first)[1]);
    assert(payload[6] == u16_bytes(index, high_first)[0]);
    assert(payload[7] == u16_bytes(index, high_first)[1]);
    assert(bytes.skip(28) =~= vars_bytes(response.vars, high_first));
}

/// A kind of message has its own number.
pub proof fn every_kind_of_message_has_its_number(code: u8)
    requires
        1 <= code <= 18,
    ensures
        type_of(code) == Type::Open <==> code == 1,
        type_of(code) == Type::Close <==> code == 2,
        type_of(code) == Type::Register <==> code == 3,
        type_of(code) == Type::Get <==> code == 5,
        type_of(code) == Type::GetNext <==> code == 6,
        type_of(code) == Type::GetBulk <==> code == 7,
        type_of(code) == Type::TestSet <==> code == 8,
        type_of(code) == Type::CommitSet <==> code == 9,
        type_of(code) == Type::UndoSet <==> code == 10,
        type_of(code) == Type::CleanupSet <==> code == 11,
        type_of(code) == Type::Ping <==> code == 13,
        type_of(code) == Type::Response <==> code == 18,
{
}

} // verus!

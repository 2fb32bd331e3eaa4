//! A session with the master agent: how its messages are received, how the
//! session is opened, and how requests are answered.

use vstd::prelude::*;

use std::sync::Arc;

use crate::error::{invalid, other, Error, ErrorKind};
use crate::mib::{Mib, RangeView, SearchRange, Value, VarBind, VarBindView};
use crate::monitor::TableReader;
use crate::time::Span;
use crate::wire::{
    error_in, get_bulk_ranges, get_ranges, parse_close, parse_ping, test_set_bindings, write_open,
    write_register, write_response, Header, ResError, Response, ResponseView, TestBinding, Type,
    HEADER_SIZE, NETWORK_ORDER, NON_DEFAULT_CONTEXT,
};

verus! {

/// The longest message that is accepted, without its header.
pub const MAX_PAYLOAD: u32 = 1_048_576;

/// The most components that an identifier may have.
pub const MAX_OID_SUBIDS: usize = 128;

/// The number of the error that a variable cannot be written.
pub const NOT_WRITABLE: u16 = 17;

/// The number of the error that a change could not be made.
pub const COMMIT_FAILED: u16 = 14;

/// The number of the error that a change could not be undone.
pub const UNDO_FAILED: u16 = 15;

/// How long the master agent may take for a message once it has begun one, and
/// for the answers while the session is opened, in seconds.
pub const IO_TIMEOUT_SECS: u8 = 5;

/// A failure to make sense of what was received.
pub open spec fn malformed(message: Seq<char>) -> crate::error::Report {
    crate::error::Report { kind: ErrorKind::InvalidData, message }
}

/// The header at the start of some bytes, or why a message cannot begin with
/// them.
pub open spec fn accepted_header(bytes: Seq<u8>) -> Result<Header, crate::error::Report> {
    match crate::wire::header_in(bytes) {
        None => Err(malformed("invalid data"@)),
        Some(header) => if header.version != 1 || header.payload_length > MAX_PAYLOAD
            || header.payload_length % 4 != 0 {
            Err(malformed("invalid AgentX version or payload length"@))
        } else {
            Ok(header)
        },
    }
}

/// The header at the start of some bytes, or why a message cannot begin with
/// them.
pub fn frame_header(bytes: &[u8]) -> (checked: Result<Header, Error>)
    ensures
        match checked {
            Ok(header) => accepted_header(bytes@) == Ok::<Header, crate::error::Report>(header),
            Err(error) => accepted_header(bytes@) == Err::<Header, crate::error::Report>(error@),
        },
{
    match Header::from_bytes(bytes) {
        None => Err(invalid("invalid data".to_owned())),
        Some(header) => {
            if header.version != 1 || header.payload_length > MAX_PAYLOAD || header.payload_length
                % 4 != 0 {
                Err(invalid("invalid AgentX version or payload length".to_owned()))
            } else {
                Ok(header)
            }
        },
    }
}

/// A whole message.
#[derive(Debug)]
pub struct Frame {
    header: Header,
    bytes: Vec<u8>,
}

impl Frame {
    /// What the message begins with.
    pub closed spec fn head(&self) -> Header {
        self.header
    }

    /// The bytes of the message, with its header.
    pub closed spec fn content(&self) -> Seq<u8> {
        self.bytes@
    }

    /// The header is that of the bytes, and the bytes are as many as it says.
    #[verifier::type_invariant]
    pub closed spec fn well_formed(&self) -> bool {
        is_frame(self.head(), self.content())
    }

    /// What the message begins with.
    pub fn header(&self) -> (header: Header)
        ensures
            header == self.head(),
            is_frame(header, self.content()),
    {
        proof {
            use_type_invariant(self);
        }
        self.header
    }

    /// The bytes of the message, with its header.
    pub fn bytes(&self) -> (bytes: &[u8])
        ensures
            bytes@ == self.content(),
            is_frame(self.head(), bytes@),
    {
        proof {
            use_type_invariant(self);
        }
        self.bytes.as_slice()
    }
}

/// Whether some bytes are a message with this header.
pub open spec fn is_frame(header: Header, bytes: Seq<u8>) -> bool {
    &&& accepted_header(bytes) == Ok::<Header, crate::error::Report>(header)
    &&& bytes.len() == HEADER_SIZE + header.payload_length
}

/// A message that is being received.
#[derive(Debug)]
pub struct FrameReader {
    bytes: Vec<u8>,
    header: Option<Header>,
}

impl FrameReader {
    /// What has been received of the message.
    pub closed spec fn received(&self) -> Seq<u8> {
        self.bytes@
    }

    #[verifier::type_invariant]
    pub closed spec fn well_formed(&self) -> bool {
        &&& self.bytes@.len() < HEADER_SIZE ==> self.header is None
        &&& self.bytes@.len() >= HEADER_SIZE ==> self.header is Some && accepted_header(self.bytes@)
            == Ok::<Header, crate::error::Report>(self.header->0)
        &&& self.bytes@.len() <= HEADER_SIZE + MAX_PAYLOAD
        &&& self.header matches Some(header) ==> self.bytes@.len() <= HEADER_SIZE
            + header.payload_length
    }

    /// A message of which the first byte has been received.
    pub fn new(first: u8) -> (reader: Self)
        ensures
            reader.received() == seq![first],
    {
        let mut bytes: Vec<u8> = Vec::new();
        bytes.push(first);
        assert(bytes@ =~= seq![first]);
        Self { bytes, header: None }
    }

    /// How many bytes are to be read next: what is missing of the header and,
    /// once that is there, what is missing of the message.
    pub fn missing(&self) -> (count: usize)
        ensures
            count == missing_after(self.received()),
    {
        proof {
            use_type_invariant(self);
        }
        match self.header {
            None => HEADER_SIZE - self.bytes.len(),
            Some(header) => HEADER_SIZE + header.payload_length as usize - self.bytes.len(),
        }
    }

    /// Takes over bytes that have been read, or refuses the message once its
    /// header is there.
    pub fn accept(self, chunk: &[u8]) -> (accepted: Result<Self, Error>)
        requires
            chunk@.len() <= missing_after(self.received()),
        ensures
            match accepted {
                Ok(reader) => {
                    &&& reader.received() == self.received() + chunk@
                    &&& header_refusal(reader.received()) is None
                },
                Err(error) => header_refusal(self.received() + chunk@) == Some(error@),
            },
    {
        proof {
            use_type_invariant(&self);
        }
        let ghost before = self.bytes@;
        let ghost all = before + chunk@;
        let known: Option<Header> = self.header;
        let mut bytes: Vec<u8> = self.bytes;
        let mut i: usize = 0;
        while i < chunk.len()
            invariant
                i <= chunk@.len(),
                bytes@ == before + chunk@.take(i as int),
            decreases chunk@.len() - i,
        {
            bytes.push(chunk[i]);
            assert(bytes@ =~= before + chunk@.take(i + 1));
            i = i + 1;
        }
        proof {
            assert(bytes@ =~= all);
            assert(all.take(before.len() as int) =~= before);
            if before.len() >= HEADER_SIZE {
                lemma_header_kept(before, all);
            }
        }
        let header: Option<Header> = if known.is_some() || bytes.len() < HEADER_SIZE {
            known
        } else {
            match frame_header(bytes.as_slice()) {
                Ok(header) => Some(header),
                Err(error) => {
                    return Err(error);
                },
            }
        };
        Ok(Self { bytes, header })
    }

    /// The message, once all of it has been received.
    pub fn finish(self) -> (frame: Option<Frame>)
        ensures
            frame is Some <==> missing_after(self.received()) == 0,
            frame matches Some(frame) ==> frame.content() == self.received()
                && is_frame(frame.head(), frame.content()),
    {
        proof {
            use_type_invariant(&self);
        }
        match self.header {
            None => None,
            Some(header) => {
                if self.bytes.len() == HEADER_SIZE + header.payload_length as usize {
                    Some(Frame { header, bytes: self.bytes })
                } else {
                    None
                }
            },
        }
    }
}

/// How many bytes are to be read after these.
pub open spec fn missing_after(bytes: Seq<u8>) -> int {
    if bytes.len() < HEADER_SIZE {
        HEADER_SIZE - bytes.len()
    } else {
        match accepted_header(bytes) {
            Ok(header) => HEADER_SIZE + header.payload_length - bytes.len(),
            Err(_) => 0,
        }
    }
}

/// Why a message is refused once its header is there, if it is.
pub open spec fn header_refusal(bytes: Seq<u8>) -> Option<crate::error::Report> {
    if bytes.len() < HEADER_SIZE {
        None
    } else {
        match accepted_header(bytes) {
            Ok(_) => None,
            Err(error) => Some(error),
        }
    }
}

proof fn lemma_header_kept(before: Seq<u8>, after: Seq<u8>)
    requires
        HEADER_SIZE <= before.len() <= after.len(),
        after.take(before.len() as int) == before,
    ensures
        accepted_header(after) == accepted_header(before),
{
    assert forall|i: int| 0 <= i < before.len() implies after[i] == before[i] by {
        assert(after.take(before.len() as int)[i] == before[i]);
    }
}

/// What an attempt to read some of a message ended with.
#[derive(Debug)]
pub enum ReadEvent {
    Bytes(Vec<u8>),
    Interrupted,
    TimedOut,
    Failed(Error),
}

/// The failure that a message has not been completed in time.
pub fn frame_deadline() -> (error: Error)
    ensures
        error@ == deadline_exceeded(),
{
    Error { kind: ErrorKind::TimedOut, message: "AgentX PDU frame deadline exceeded".to_owned() }
}

/// The failure that a message has not been completed in time.
pub open spec fn deadline_exceeded() -> crate::error::Report {
    crate::error::Report {
        kind: ErrorKind::TimedOut,
        message: "AgentX PDU frame deadline exceeded"@,
    }
}

/// How long a read may take that has to be over before the deadline.
pub fn time_left(deadline: Span, now: Span) -> (left: Result<Span, Error>)
    ensures
        match left {
            Ok(left) => now.nanos < deadline.nanos && left.nanos == deadline.nanos - now.nanos,
            Err(error) => now.nanos >= deadline.nanos && error@ == deadline_exceeded(),
        },
{
    let left: Span = deadline.saturating_sub(now);
    if left.is_zero() {
        return Err(frame_deadline());
    }
    Ok(left)
}

/// Goes on with a message after an attempt to read some of it. An interrupted
/// attempt changes nothing; one that found the end, or took too long, or failed
/// otherwise, ends the message.
pub fn proceed(reader: FrameReader, event: ReadEvent) -> (proceeded: Result<FrameReader, Error>)
    requires
        event matches ReadEvent::Bytes(bytes) ==> bytes@.len() <= missing_after(reader.received()),
    ensures
        match event {
            ReadEvent::Bytes(bytes) => if bytes@.len() == 0 {
                proceeded matches Err(error) && error@ == (crate::error::Report {
                    kind: ErrorKind::UnexpectedEof,
                    message: "unexpected end of file"@,
                })
            } else {
                match proceeded {
                    Ok(after) => {
                        &&& after.received() == reader.received() + bytes@
                        &&& header_refusal(after.received()) is None
                    },
                    Err(error) => header_refusal(reader.received() + bytes@) == Some(error@),
                }
            },
            ReadEvent::Interrupted => proceeded matches Ok(after) && after.received()
                == reader.received(),
            ReadEvent::TimedOut => proceeded matches Err(error) && error@ == deadline_exceeded(),
            ReadEvent::Failed(failure) => proceeded matches Err(error) && error@ == failure@,
        },
{
    match event {
        ReadEvent::Bytes(bytes) => {
            if bytes.len() == 0 {
                return Err(
                    Error {
                        kind: ErrorKind::UnexpectedEof,
                        message: "unexpected end of file".to_owned(),
                    },
                );
            }
            reader.accept(bytes.as_slice())
        },
        ReadEvent::Interrupted => Ok(reader),
        ReadEvent::TimedOut => Err(frame_deadline()),
        ReadEvent::Failed(error) => Err(error),
    }
}

/// A message to send, and its header.
#[derive(Debug)]
pub struct Request {
    pub header: Header,
    pub bytes: Vec<u8>,
}

/// The header of a request with nothing but these fields set.
pub open spec fn request_header(
    ty: Type,
    flags: u8,
    session_id: u32,
    packet_id: u32,
    payload_length: int,
) -> Header {
    Header {
        version: 1,
        ty,
        flags,
        session_id,
        transaction_id: 0,
        packet_id,
        payload_length: payload_length as u32,
    }
}

/// The request to open a session.
pub fn open_request() -> (request: Request)
    ensures
        request.bytes@ == crate::wire::open_bytes(
            NETWORK_ORDER,
            1,
            IO_TIMEOUT_SECS,
            "agentx-ifstack"@,
        ),
        request.header == request_header(
            Type::Open,
            NETWORK_ORDER,
            0,
            1,
            request.bytes@.len() - HEADER_SIZE,
        ),
        crate::wire::header_in(request.bytes@) == Some(request.header),
{
    let description: &str = "agentx-ifstack";
    let ghost text = vstd::utf8::encode_utf8(description@);
    let ghost payload = crate::wire::open_payload(
        IO_TIMEOUT_SECS,
        description@,
        crate::wire::network_order(NETWORK_ORDER),
    );
    proof {
        reveal_strlit("agentx-ifstack");
        vstd::utf8::is_ascii_chars_encode_utf8(description@);
        assert(text.len() == 14);
        assert(crate::wire::padded(text).len() == 16);
        assert(payload.len() == 28);
        crate::wire::a_written_header_is_read_back(1, NETWORK_ORDER, 0, 0, 1, 28, payload);
    }
    let bytes: Vec<u8> = write_open(NETWORK_ORDER, 1, IO_TIMEOUT_SECS, description).unwrap();
    let header: Header = Header {
        version: 1,
        ty: Type::Open,
        flags: NETWORK_ORDER,
        session_id: 0,
        transaction_id: 0,
        packet_id: 1,
        payload_length: 28,
    };
    Request { header, bytes }
}

/// The request to register the table in a session that has been opened, in the
/// byte order that the master agent has answered in.
pub fn register_request(opened: &Header, priority: u8) -> (request: Request)
    ensures
        request.bytes@ == crate::wire::register_bytes(
            opened.flags & NETWORK_ORDER,
            opened.session_id,
            2,
            priority,
            crate::mib::TABLE@,
        ),
        request.header == request_header(
            Type::Register,
            opened.flags & NETWORK_ORDER,
            opened.session_id,
            2,
            request.bytes@.len() - HEADER_SIZE,
        ),
        crate::wire::header_in(request.bytes@) == Some(request.header),
{
    let flags: u8 = opened.flags & NETWORK_ORDER;
    let root: Vec<u32> = vec![1, 3, 6, 1, 2, 1, 31, 1, 2];
    let ghost payload = crate::wire::register_payload(
        priority,
        root@,
        crate::wire::network_order(flags),
    );
    proof {
        assert(root@ =~= crate::mib::TABLE@);
        crate::wire::component_bytes_are_four_each(root@, crate::wire::network_order(flags));
        assert(payload.len() == 44);
        crate::wire::a_written_header_is_read_back(
            3,
            flags,
            opened.session_id,
            0,
            2,
            44,
            payload,
        );
    }
    let bytes: Vec<u8> = write_register(flags, opened.session_id, 2, priority, root).unwrap();
    let header: Header = Header {
        version: 1,
        ty: Type::Register,
        flags,
        session_id: opened.session_id,
        transaction_id: 0,
        packet_id: 2,
        payload_length: 44,
    };
    Request { header, bytes }
}

/// Why a message is no acknowledgement of a request, if it is none. What the
/// master agent adds behind the error and its index does not matter.
pub open spec fn acknowledgement_refusal(
    header: Header,
    bytes: Seq<u8>,
    request: Header,
) -> Option<crate::error::Report> {
    let code = crate::wire::u16_at(bytes, 24, crate::wire::network_order(header.flags));
    if header.ty != Type::Response || header.payload_length < 8 || header.packet_id
        != request.packet_id || header.transaction_id != request.transaction_id || (request.ty
        != Type::Open && header.session_id != request.session_id) {
        Some(malformed("unexpected AgentX acknowledgement"@))
    } else if !crate::wire::is_error_code(code) {
        Some(malformed("invalid data"@))
    } else if code != 0 {
        Some(
            crate::error::Report {
                kind: ErrorKind::Other,
                message: "AgentX "@ + crate::wire::message_name(request.ty) + " rejected: "@
                    + crate::wire::error_name(code),
            },
        )
    } else if bytes[26] != 0 || bytes[27] != 0 {
        Some(malformed("nonzero administrative response error index"@))
    } else {
        None
    }
}

/// Checks that a message acknowledges a request, and gives its header.
pub fn acknowledge(frame: &Frame, request: &Header) -> (acknowledged: Result<Header, Error>)
    ensures
        match acknowledged {
            Ok(header) => {
                &&& header == frame.head()
                &&& acknowledgement_refusal(frame.head(), frame.content(), *request) is None
            },
            Err(error) => acknowledgement_refusal(frame.head(), frame.content(), *request) == Some(
                error@,
            ),
        },
{
    let header: Header = frame.header();
    let bytes: &[u8] = frame.bytes();
    if header.ty != Type::Response || header.payload_length < 8 || header.packet_id
        != request.packet_id || header.transaction_id != request.transaction_id || (request.ty
        != Type::Open && header.session_id != request.session_id) {
        return Err(invalid("unexpected AgentX acknowledgement".to_owned()));
    }
    let high_first: bool = header.flags & NETWORK_ORDER != 0;
    let field: &[u8] = vstd::slice::slice_subrange(bytes, 24, 26);
    assert(field@[0] == bytes@[24] && field@[1] == bytes@[25]);
    match error_in(field, high_first) {
        None => {
            return Err(invalid("invalid data".to_owned()));
        },
        Some(error) => {
            if error != ResError::NoAgentXError {
                let mut text: String = "AgentX ".to_owned();
                text.append(request.ty.name());
                text.append(" rejected: ");
                text.append(error.name());
                return Err(other(text));
            }
        },
    }
    if bytes[26] != 0 || bytes[27] != 0 {
        return Err(invalid("nonzero administrative response error index".to_owned()));
    }
    Ok(header)
}

/// The response to a message before anything is known of how to answer it: it
/// names the same session, transaction and packet, in the same byte order.
pub open spec fn reply_to(header: Header) -> ResponseView {
    ResponseView {
        flags: header.flags & NETWORK_ORDER,
        session_id: header.session_id,
        transaction_id: header.transaction_id,
        packet_id: header.packet_id,
        res_error: ResError::NoAgentXError,
        res_index: 0,
        vars: seq![],
    }
}

/// The response to a message before anything is known of how to answer it.
pub fn reply(header: &Header) -> (response: Response)
    ensures
        response@ == reply_to(*header),
        response.vb is None,
{
    Response {
        flags: header.flags & NETWORK_ORDER,
        session_id: header.session_id,
        transaction_id: header.transaction_id,
        packet_id: header.packet_id,
        res_error: ResError::NoAgentXError,
        res_index: 0,
        vb: None,
    }
}

/// The response that reports an error.
fn failed_reply(header: &Header, error: ResError) -> (response: Response)
    ensures
        response@ == (ResponseView { res_error: error, ..reply_to(*header) }),
{
    let mut response: Response = reply(header);
    response.res_error = error;
    response
}

/// How a request is answered: with a response and, where that is to report an
/// error of the management protocol itself, the number of that error; or not at
/// all, because it makes no sense.
pub type Outcome = Result<(ResponseView, Option<u16>), crate::error::Report>;

/// Whether an identifier has too many components.
pub open spec fn oversized(components: Seq<u32>) -> bool {
    components.len() > MAX_OID_SUBIDS
}

/// Why ranges are refused, if they are.
pub open spec fn ranges_refusal(ranges: Seq<RangeView>) -> Option<Seq<char>> {
    if exists|i: int|
        0 <= i < ranges.len() && (oversized((#[trigger] ranges[i]).start.components) || oversized(
            ranges[i].end.components,
        )) {
        Some("OID exceeds 128 sub-identifiers"@)
    } else if exists|i: int| 0 <= i < ranges.len() && (#[trigger] ranges[i]).start.inclusive > 1 {
        Some("invalid SearchRange include flag"@)
    } else {
        None
    }
}

/// What a request finds in a table.
pub open spec fn found(
    ty: Type,
    rows: Seq<crate::pairs::Pair>,
    ranges: Seq<RangeView>,
    non_repeaters: u16,
    max_repetitions: u16,
) -> Seq<VarBindView> {
    match ty {
        Type::Get => ranges.map_values(
            |range: RangeView| crate::mib::lookup(rows, range.start.components),
        ),
        Type::GetNext => ranges.map_values(|range: RangeView| crate::mib::next_in(rows, range)),
        _ => crate::mib::bulk(rows, ranges, non_repeaters as nat, max_repetitions as nat),
    }
}

/// How a request to read variables is answered.
pub open spec fn read_outcome(
    header: Header,
    ranges: Option<Seq<RangeView>>,
    non_repeaters: u16,
    max_repetitions: u16,
    table: Option<Mib>,
) -> Outcome {
    match ranges {
        None => Err(malformed("invalid data"@)),
        Some(ranges) => match ranges_refusal(ranges) {
            Some(message) => Err(malformed(message)),
            None => match table {
                None => Ok(
                    (
                        ResponseView { res_error: ResError::ProcessingError, ..reply_to(header) },
                        None,
                    ),
                ),
                Some(mib) => Ok(
                    (
                        ResponseView {
                            vars: found(
                                header.ty,
                                mib.rows(),
                                ranges,
                                non_repeaters,
                                max_repetitions,
                            ),
                            ..reply_to(header)
                        },
                        None,
                    ),
                ),
            },
        },
    }
}

/// How a request to test a change is answered: nothing can be changed.
pub open spec fn test_set_outcome(
    header: Header,
    bindings: Option<Seq<(Seq<u32>, Option<Seq<u32>>)>>,
) -> Outcome {
    match bindings {
        None => Err(malformed("invalid data"@)),
        Some(bindings) => if exists|i: int|
            0 <= i < bindings.len() && (oversized((#[trigger] bindings[i]).0) || (bindings[i].1
                is Some && oversized(bindings[i].1->0))) {
            Err(malformed("OID exceeds 128 sub-identifiers"@))
        } else if bindings.len() > 0 {
            Ok((ResponseView { res_index: 1, ..reply_to(header) }, Some(NOT_WRITABLE)))
        } else {
            Ok((reply_to(header), None))
        },
    }
}

/// How a request is answered in an open session.
pub open spec fn outcome(header: Header, bytes: Seq<u8>, table: Option<Mib>) -> Outcome {
    let high_first = crate::wire::network_order(bytes[2]);
    if crate::wire::names_context(header.flags) {
        Ok((ResponseView { res_error: ResError::UnsupportedContext, ..reply_to(header) }, None))
    } else {
        match header.ty {
            Type::Get | Type::GetNext => read_outcome(
                header,
                crate::wire::requested_ranges(bytes, 20),
                0,
                0,
                table,
            ),
            Type::GetBulk => read_outcome(
                header,
                crate::wire::requested_ranges(bytes, 24),
                crate::wire::u16_at(bytes, 20, high_first),
                crate::wire::u16_at(bytes, 22, high_first),
                table,
            ),
            Type::TestSet => test_set_outcome(header, crate::wire::test_set_in(bytes)),
            Type::CommitSet | Type::UndoSet => if header.payload_length != 0 {
                Err(malformed("Set phase has a payload"@))
            } else if header.ty == Type::CommitSet {
                Ok((reply_to(header), Some(COMMIT_FAILED)))
            } else {
                Ok((reply_to(header), Some(UNDO_FAILED)))
            },
            Type::Ping => Ok((reply_to(header), None)),
            _ => Ok(
                (ResponseView { res_error: ResError::RequestDenied, ..reply_to(header) }, None),
            ),
        }
    }
}

/// Whether a request was answered as it is to be.
pub open spec fn outcome_is(
    answered: Result<(Response, Option<u16>), Error>,
    expected: Outcome,
) -> bool {
    match answered {
        Ok((response, error)) => expected matches Ok((view, code)) && view == response@ && code
            == error,
        Err(failure) => expected matches Err(report) && report == failure@,
    }
}

/// Refuses an identifier with too many components.
pub fn validate_oid(components: &Vec<u32>) -> (valid: Result<(), Error>)
    ensures
        match valid {
            Ok(()) => !oversized(components@),
            Err(error) => oversized(components@) && error@ == malformed(
                "OID exceeds 128 sub-identifiers"@,
            ),
        },
{
    if components.len() > MAX_OID_SUBIDS {
        return Err(invalid("OID exceeds 128 sub-identifiers".to_owned()));
    }
    Ok(())
}

/// Refuses ranges with too long identifiers or with a start that is neither
/// inclusive nor exclusive.
pub fn validate_ranges(ranges: &Vec<SearchRange>) -> (valid: Result<(), Error>)
    ensures
        match valid {
            Ok(()) => ranges_refusal(crate::mib::range_views(ranges@)) is None,
            Err(error) => ranges_refusal(crate::mib::range_views(ranges@)) matches Some(message)
                && error@ == malformed(message),
        },
{
    let ghost views = crate::mib::range_views(ranges@);
    let mut i: usize = 0;
    while i < ranges.len()
        invariant
            i <= ranges@.len(),
            views == crate::mib::range_views(ranges@),
            forall|j: int|
                0 <= j < i ==> !oversized((#[trigger] views[j]).start.components) && !oversized(
                    views[j].end.components,
                ),
        decreases ranges@.len() - i,
    {
        assert(views[i as int] == ranges@[i as int]@);
        match validate_oid(&ranges[i].start.components) {
            Ok(()) => {},
            Err(error) => {
                return Err(error);
            },
        }
        match validate_oid(&ranges[i].end.components) {
            Ok(()) => {},
            Err(error) => {
                return Err(error);
            },
        }
        i = i + 1;
    }
    let mut j: usize = 0;
    while j < ranges.len()
        invariant
            j <= ranges@.len(),
            views == crate::mib::range_views(ranges@),
            forall|k: int|
                0 <= k < ranges@.len() ==> !oversized((#[trigger] views[k]).start.components)
                    && !oversized(views[k].end.components),
            forall|k: int| 0 <= k < j ==> (#[trigger] views[k]).start.inclusive <= 1,
        decreases ranges@.len() - j,
    {
        assert(views[j as int] == ranges@[j as int]@);
        if ranges[j].start.inclusive > 1 {
            return Err(invalid("invalid SearchRange include flag".to_owned()));
        }
        j = j + 1;
    }
    Ok(())
}

/// Answers a request to read variables, given its ranges.
pub fn answer_read(
    header: &Header,
    ranges: Option<Vec<SearchRange>>,
    non_repeaters: u16,
    max_repetitions: u16,
    tables: &TableReader,
) -> (answered: Result<(Response, Option<u16>), Error>)
    ensures
        outcome_is(
            answered,
            read_outcome(
                *header,
                match ranges {
                    Some(ranges) => Some(crate::mib::range_views(ranges@)),
                    None => None,
                },
                non_repeaters,
                max_repetitions,
                tables.current(),
            ),
        ),
{
    let ranges: Vec<SearchRange> = match ranges {
        None => {
            return Err(invalid("invalid data".to_owned()));
        },
        Some(ranges) => ranges,
    };
    match validate_ranges(&ranges) {
        Ok(()) => {},
        Err(error) => {
            return Err(error);
        },
    }
    let mib: Arc<Mib> = match tables.snapshot() {
        None => {
            return Ok((failed_reply(header, ResError::ProcessingError), None));
        },
        Some(mib) => mib,
    };
    let ghost views = crate::mib::range_views(ranges@);
    let ghost expected = found(header.ty, mib.rows(), views, non_repeaters, max_repetitions);
    let mut response: Response = reply(header);
    match header.ty {
        Type::Get | Type::GetNext => {
            let mut vars: Vec<VarBind> = Vec::new();
            let mut i: usize = 0;
            while i < ranges.len()
                invariant
                    i <= ranges@.len(),
                    views == crate::mib::range_views(ranges@),
                    expected == found(
                        header.ty,
                        mib.rows(),
                        views,
                        non_repeaters,
                        max_repetitions,
                    ),
                    header.ty == Type::Get || header.ty == Type::GetNext,
                    crate::mib::var_views(vars@) == expected.take(i as int),
                decreases ranges@.len() - i,
            {
                let var: VarBind = if header.ty == Type::Get {
                    mib.get(&ranges[i].start)
                } else {
                    mib.get_next(&ranges[i])
                };
                let ghost before = vars@;
                proof {
                    assert(views[i as int] == ranges@[i as int]@);
                    assert(var@ == expected[i as int]);
                }
                vars.push(var);
                proof {
                    assert(crate::mib::var_views(vars@) =~= crate::mib::var_views(before).push(
                        expected[i as int],
                    ));
                    assert(expected.take(i + 1) =~= expected.take(i as int).push(
                        expected[i as int],
                    ));
                }
                i = i + 1;
            }
            assert(expected.take(i as int) =~= expected);
            response.vb = Some(vars);
        },
        _ => {
            response.vb = Some(mib.get_bulk(ranges, non_repeaters, max_repetitions));
        },
    }
    Ok((response, None))
}

/// Answers a request to test a change, given its bindings.
pub fn answer_test_set(header: &Header, bindings: Option<Vec<TestBinding>>) -> (answered: Result<
    (Response, Option<u16>),
    Error,
>)
    ensures
        outcome_is(
            answered,
            test_set_outcome(
                *header,
                match bindings {
                    Some(bindings) => Some(crate::wire::test_views(bindings@)),
                    None => None,
                },
            ),
        ),
{
    let list: Vec<TestBinding> = match bindings {
        None => {
            return Err(invalid("invalid data".to_owned()));
        },
        Some(bindings) => bindings,
    };
    let ghost views = crate::wire::test_views(list@);
    let mut i: usize = 0;
    while i < list.len()
        invariant
            i <= list@.len(),
            bindings == Some(list),
            views == crate::wire::test_views(list@),
            forall|j: int|
                0 <= j < i ==> !oversized((#[trigger] views[j]).0) && !(views[j].1 is Some
                    && oversized(views[j].1->0)),
        decreases list@.len() - i,
    {
        assert(views[i as int] == list@[i as int]@);
        match validate_oid(&list[i].name) {
            Ok(()) => {},
            Err(error) => {
                return Err(error);
            },
        }
        if let Some(value) = &list[i].value {
            match validate_oid(value) {
                Ok(()) => {},
                Err(error) => {
                    return Err(error);
                },
            }
        }
        i = i + 1;
    }
    let mut response: Response = reply(header);
    if list.len() > 0 {
        response.res_index = 1;
        return Ok((response, Some(NOT_WRITABLE)));
    }
    Ok((response, None))
}

/// Answers a request in an open session.
pub fn dispatch(frame: &Frame, tables: &TableReader) -> (answered: Result<
    (Response, Option<u16>),
    Error,
>)
    ensures
        outcome_is(answered, outcome(frame.head(), frame.content(), tables.current())),
{
    let header: Header = frame.header();
    let bytes: &[u8] = frame.bytes();
    if header.flags & NON_DEFAULT_CONTEXT != 0 {
        return Ok((failed_reply(&header, ResError::UnsupportedContext), None));
    }
    match header.ty {
        Type::Get | Type::GetNext => answer_read(&header, get_ranges(bytes), 0, 0, tables),
        Type::GetBulk => match get_bulk_ranges(bytes) {
            None => Err(invalid("invalid data".to_owned())),
            Some((non_repeaters, max_repetitions, ranges)) => {
                answer_read(&header, Some(ranges), non_repeaters, max_repetitions, tables)
            },
        },
        Type::TestSet => answer_test_set(&header, test_set_bindings(bytes)),
        Type::CommitSet | Type::UndoSet => {
            if header.payload_length != 0 {
                return Err(invalid("Set phase has a payload".to_owned()));
            }
            let error: u16 = if header.ty == Type::CommitSet {
                COMMIT_FAILED
            } else {
                UNDO_FAILED
            };
            Ok((reply(&header), Some(error)))
        },
        Type::Ping => {
            if !parse_ping(bytes) {
                return Err(invalid("invalid data".to_owned()));
            }
            Ok((reply(&header), None))
        },
        _ => Ok((failed_reply(&header, ResError::RequestDenied), None)),
    }
}

/// What to do after a message. A request that made no sense is answered all the
/// same; why it made none is told along.
#[derive(Debug)]
pub enum Step {
    Send { bytes: Vec<u8>, refused: Option<Error> },
    SendAndClose { bytes: Vec<u8> },
    Ignore,
}

/// The value of a [`Step`].
pub enum StepView {
    Send { bytes: Seq<u8>, refused: Option<crate::error::Report> },
    SendAndClose { bytes: Seq<u8> },
    Ignore,
}

impl View for Step {
    type V = StepView;

    open spec fn view(&self) -> StepView {
        match *self {
            Step::Send { bytes, refused } => StepView::Send {
                bytes: bytes@,
                refused: match refused {
                    Some(error) => Some(error@),
                    None => None,
                },
            },
            Step::SendAndClose { bytes } => StepView::SendAndClose { bytes: bytes@ },
            Step::Ignore => StepView::Ignore,
        }
    }
}

/// The bytes of the response that reports an error.
pub open spec fn failure_bytes(header: Header, error: ResError) -> Seq<u8> {
    crate::wire::response_bytes(
        ResponseView { res_error: error, ..reply_to(header) },
        crate::wire::code_of(error),
    )
}

/// What to do after a message in the session with this number.
pub open spec fn step_after(
    session_id: u32,
    header: Header,
    bytes: Seq<u8>,
    table: Option<Mib>,
) -> Result<StepView, crate::error::Report> {
    if header.session_id != session_id {
        Ok(StepView::Send { bytes: failure_bytes(header, ResError::NotOpen), refused: None })
    } else if header.ty == Type::Close {
        if crate::wire::is_close(bytes) {
            Ok(
                StepView::SendAndClose {
                    bytes: failure_bytes(header, ResError::NoAgentXError),
                },
            )
        } else {
            Err(malformed("invalid data"@))
        }
    } else if header.ty == Type::CleanupSet {
        if header.payload_length != 0 {
            Err(malformed("CleanupSet has a payload"@))
        } else {
            Ok(StepView::Ignore)
        }
    } else {
        match outcome(header, bytes, table) {
            Ok((response, code)) => Ok(
                StepView::Send {
                    bytes: crate::wire::response_bytes(
                        response,
                        match code {
                            Some(code) => code,
                            None => crate::wire::code_of(response.res_error),
                        },
                    ),
                    refused: None,
                },
            ),
            Err(report) => Ok(
                StepView::Send {
                    bytes: failure_bytes(header, ResError::ParseError),
                    refused: Some(report),
                },
            ),
        }
    }
}

/// Writes a response without variables.
fn write_plain(response: &Response) -> (bytes: Vec<u8>)
    requires
        response@.vars.len() == 0,
    ensures
        bytes@ == crate::wire::response_bytes(
            response@,
            crate::wire::code_of(response.res_error),
        ),
{
    assert(crate::wire::vars_bytes(response@.vars, crate::wire::network_order(response.flags))
        =~= seq![]);
    write_response(response)
}

/// Writes a response that reports the error with this number.
fn write_with_code(response: &Response, code: u16) -> (bytes: Vec<u8>)
    requires
        crate::wire::can_be_written(response@),
    ensures
        bytes@ == crate::wire::response_bytes(response@, code),
{
    let mut bytes: Vec<u8> = write_response(response);
    let ghost written = bytes@;
    let high: u8 = (code / 256) as u8;
    let low: u8 = (code % 256) as u8;
    let high_first: bool = response.flags & NETWORK_ORDER != 0;
    proof {
        lemma_payload_len(response@, code);
        lemma_payload_len(response@, crate::wire::code_of(response.res_error));
    }
    if high_first {
        bytes.set(24, high);
        bytes.set(25, low);
    } else {
        bytes.set(24, low);
        bytes.set(25, high);
    }
    assert(bytes@ =~= crate::wire::response_bytes(response@, code));
    bytes
}

proof fn lemma_payload_len(response: ResponseView, code: u16)
    ensures
        crate::wire::response_payload(response, code).len() == 8 + crate::wire::vars_bytes(
            response.vars,
            crate::wire::network_order(response.flags),
        ).len(),
        crate::wire::response_bytes(response, code).len() == 20 + crate::wire::response_payload(
            response,
            code,
        ).len(),
{
}

/// What variables take up, if no name has too many components.
proof fn lemma_vars_len(vars: Seq<VarBindView>, high_first: bool)
    requires
        forall|i: int| 0 <= i < vars.len() ==> !oversized((#[trigger] vars[i]).name.components),
    ensures
        crate::wire::vars_bytes(vars, high_first).len() <= 524 * vars.len(),
    decreases vars.len(),
{
    if vars.len() > 0 {
        let fewer = vars.drop_last();
        assert forall|i: int| 0 <= i < fewer.len() implies !oversized(
            (#[trigger] fewer[i]).name.components,
        ) by {
            assert(fewer[i] == vars[i]);
        }
        lemma_vars_len(fewer, high_first);
        assert(!oversized(vars[vars.len() - 1].name.components));
        crate::wire::component_bytes_are_four_each(vars.last().name.components, high_first);
    }
}

/// A range takes up at least eight bytes.
proof fn lemma_ranges_len(bytes: Seq<u8>, high_first: bool)
    ensures
        crate::wire::ranges_in(bytes, high_first) matches Some(ranges) ==> 8 * ranges.len()
            <= bytes.len(),
    decreases bytes.len(),
{
    if bytes.len() > 0 && crate::wire::oid_in(bytes, high_first) is Some {
        let behind = bytes.skip(crate::wire::oid_size(bytes));
        if crate::wire::oid_in(behind, high_first) is Some {
            lemma_ranges_len(behind.skip(crate::wire::oid_size(behind)), high_first);
        }
    }
}

/// A search from an identifier without too many components finds one without
/// too many.
proof fn lemma_next_not_oversized(rows: Seq<crate::pairs::Pair>, range: RangeView)
    requires
        !oversized(range.start.components),
    ensures
        !oversized(crate::mib::next_in(rows, range).name.components),
{
}

proof fn lemma_repetition_not_oversized(
    rows: Seq<crate::pairs::Pair>,
    range: RangeView,
    n: nat,
)
    requires
        !oversized(range.start.components),
    ensures
        !oversized(crate::mib::repetition(rows, range, n).name.components),
    decreases n,
{
    if n > 0 {
        lemma_repetition_not_oversized(rows, range, (n - 1) as nat);
        lemma_next_not_oversized(
            rows,
            RangeView {
                start: crate::mib::repetition(rows, range, (n - 1) as nat).name,
                end: range.end,
            },
        );
    } else {
        lemma_next_not_oversized(rows, range);
    }
}

spec fn none_oversized(vars: Seq<VarBindView>) -> bool {
    forall|i: int| 0 <= i < vars.len() ==> !oversized((#[trigger] vars[i]).name.components)
}

proof fn lemma_round_not_oversized(
    rows: Seq<crate::pairs::Pair>,
    ranges: Seq<RangeView>,
    n: nat,
)
    requires
        forall|i: int| 0 <= i < ranges.len() ==> !oversized((#[trigger] ranges[i]).start.components),
    ensures
        none_oversized(crate::mib::round(rows, ranges, n)),
{
    assert forall|i: int| 0 <= i < ranges.len() implies !oversized(
        (#[trigger] crate::mib::round(rows, ranges, n)[i]).name.components,
    ) by {
        lemma_repetition_not_oversized(rows, ranges[i], n);
    }
}

proof fn lemma_rounds_not_oversized(
    rows: Seq<crate::pairs::Pair>,
    ranges: Seq<RangeView>,
    n: nat,
    max: nat,
)
    requires
        forall|i: int| 0 <= i < ranges.len() ==> !oversized((#[trigger] ranges[i]).start.components),
    ensures
        none_oversized(crate::mib::rounds(rows, ranges, n, max)),
    decreases max - n,
{
    if n < max {
        lemma_round_not_oversized(rows, ranges, n);
        if !crate::mib::exhausted(crate::mib::round(rows, ranges, n)) {
            lemma_rounds_not_oversized(rows, ranges, n + 1, max);
        }
    }
}

/// What accepted ranges find has no identifier with too many components, and is
/// no more than the ranges or than one answer may hold.
proof fn lemma_found(
    ty: Type,
    rows: Seq<crate::pairs::Pair>,
    ranges: Seq<RangeView>,
    non_repeaters: u16,
    max_repetitions: u16,
)
    requires
        ranges_refusal(ranges) is None,
    ensures
        none_oversized(found(ty, rows, ranges, non_repeaters, max_repetitions)),
        found(ty, rows, ranges, non_repeaters, max_repetitions).len() <= ranges.len() + 4096,
{
    let vars = found(ty, rows, ranges, non_repeaters, max_repetitions);
    assert forall|i: int| 0 <= i < ranges.len() implies !oversized(
        (#[trigger] ranges[i]).start.components,
    ) by {}
    if ty == Type::Get {
        assert forall|i: int| 0 <= i < vars.len() implies !oversized(
            (#[trigger] vars[i]).name.components,
        ) by {
            assert(!oversized(ranges[i].start.components));
        }
    } else if ty == Type::GetNext {
        assert forall|i: int| 0 <= i < vars.len() implies !oversized(
            (#[trigger] vars[i]).name.components,
        ) by {
            lemma_next_not_oversized(rows, ranges[i]);
        }
    } else {
        let count = if (non_repeaters as int) < ranges.len() {
            non_repeaters as int
        } else {
            ranges.len() as int
        };
        let once = ranges.take(count);
        let others = ranges.skip(count);
        assert forall|i: int| 0 <= i < once.len() implies !oversized(
            (#[trigger] once[i]).start.components,
        ) by {
            assert(once[i] == ranges[i]);
        }
        assert forall|i: int| 0 <= i < others.len() implies !oversized(
            (#[trigger] others[i]).start.components,
        ) by {
            assert(others[i] == ranges[i + count]);
        }
        lemma_round_not_oversized(rows, once, 0);
        lemma_rounds_not_oversized(rows, others, 0, max_repetitions as nat);
        let all = crate::mib::bulk_unbounded(
            rows,
            ranges,
            non_repeaters as nat,
            max_repetitions as nat,
        );
        assert(none_oversized(all));
    }
}

/// A response to a request that fits into a message can be written.
proof fn lemma_outcome_can_be_written(header: Header, bytes: Seq<u8>, table: Option<Mib>)
    requires
        is_frame(header, bytes),
    ensures
        outcome(header, bytes, table) matches Ok((response, code))
            ==> crate::wire::can_be_written(response),
{
    if let Ok((response, code)) = outcome(header, bytes, table) {
        let high_first = crate::wire::network_order(bytes[2]);
        if response.vars.len() > 0 {
            lemma_ranges_len(bytes.skip(20), high_first);
            lemma_ranges_len(bytes.skip(24), high_first);
            let (from, non_repeaters, max_repetitions) = if header.ty == Type::GetBulk {
                (
                    24int,
                    crate::wire::u16_at(bytes, 20, high_first),
                    crate::wire::u16_at(bytes, 22, high_first),
                )
            } else {
                (20int, 0u16, 0u16)
            };
            let ranges = crate::wire::requested_ranges(bytes, from)->0;
            lemma_found(header.ty, table->0.rows(), ranges, non_repeaters, max_repetitions);
        }
        lemma_vars_len(response.vars, crate::wire::network_order(response.flags));
        assert forall|i: int| 0 <= i < response.vars.len() implies (
        #[trigger] response.vars[i]).name.components.len() <= 255 by {
            assert(!oversized(response.vars[i].name.components));
        }
    }
}

/// Decides what to do after a message in the session with this number, and
/// what to send.
pub fn respond(session_id: u32, frame: &Frame, tables: &TableReader) -> (decided: Result<
    Step,
    Error,
>)
    ensures
        match decided {
            Ok(step) => step_after(session_id, frame.head(), frame.content(), tables.current())
                == Ok::<StepView, crate::error::Report>(step@),
            Err(error) => step_after(session_id, frame.head(), frame.content(), tables.current())
                == Err::<StepView, crate::error::Report>(error@),
        },
{
    let header: Header = frame.header();
    if header.session_id != session_id {
        let bytes: Vec<u8> = write_plain(&failed_reply(&header, ResError::NotOpen));
        return Ok(Step::Send { bytes, refused: None });
    }
    if header.ty == Type::Close {
        if !parse_close(frame.bytes()) {
            return Err(invalid("invalid data".to_owned()));
        }
        let bytes: Vec<u8> = write_plain(&reply(&header));
        return Ok(Step::SendAndClose { bytes });
    }
    if header.ty == Type::CleanupSet {
        if header.payload_length != 0 {
            return Err(invalid("CleanupSet has a payload".to_owned()));
        }
        return Ok(Step::Ignore);
    }
    match dispatch(frame, tables) {
        Ok((response, error)) => {
            proof {
                lemma_outcome_can_be_written(frame.head(), frame.content(), tables.current());
            }
            let code: u16 = match error {
                Some(code) => code,
                None => response.res_error.code(),
            };
            let bytes: Vec<u8> = write_with_code(&response, code);
            Ok(Step::Send { bytes, refused: None })
        },
        Err(error) => {
            let bytes: Vec<u8> = write_plain(&failed_reply(&header, ResError::ParseError));
            Ok(Step::Send { bytes, refused: Some(error) })
        },
    }
}

/// How far a session has come.
#[derive(Clone, Copy, Debug, PartialEq, Eq, Structural)]
pub enum Phase {
    Opening,
    Registering,
    Serving,
}

/// A session with the master agent: how far it has come, the last request that
/// is to be acknowledged, and the number that the master agent gave it.
#[derive(Clone, Copy, Debug, PartialEq, Eq, Structural)]
pub struct Session {
    pub phase: Phase,
    pub request: Header,
    pub session_id: u32,
    pub priority: u8,
}

/// What to do after a message, before the table is served or after.
#[derive(Debug)]
pub enum Progress {
    Send { bytes: Vec<u8> },
    Registered,
    Serve(Step),
}

impl Session {
    /// Begins a session: it is opened with this request.
    pub fn begin(priority: u8) -> (begun: (Self, Vec<u8>))
        ensures
            begun.0.phase == Phase::Opening,
            begun.0.priority == priority,
            begun.0.session_id == 0,
            begun.0.request == request_header(
                Type::Open,
                NETWORK_ORDER,
                0,
                1,
                begun.1@.len() - HEADER_SIZE,
            ),
            begun.1@ == crate::wire::open_bytes(
                NETWORK_ORDER,
                1,
                IO_TIMEOUT_SECS,
                "agentx-ifstack"@,
            ),
    {
        let request: Request = open_request();
        (
            Self { phase: Phase::Opening, request: request.header, session_id: 0, priority },
            request.bytes,
        )
    }

    /// How long the first byte of the next message may be waited for. A master
    /// agent that is being waited for has to answer in time; once the table is
    /// served, it may be silent for as long as it likes.
    pub fn idle_timeout(&self) -> (timeout: Option<Span>)
        ensures
            timeout == if self.phase == Phase::Serving {
                None::<Span>
            } else {
                Some(crate::time::seconds(IO_TIMEOUT_SECS as nat))
            },
    {
        match self.phase {
            Phase::Serving => None,
            _ => Some(Span::from_secs(IO_TIMEOUT_SECS as u64)),
        }
    }

    /// Goes on after a message. A session is opened, then the table is
    /// registered, then it is served; the first two need an acknowledgement each.
    pub fn proceed(&mut self, frame: &Frame, tables: &TableReader) -> (proceeded: Result<
        Progress,
        Error,
    >)
        ensures
            final(self).priority == old(self).priority,
            match old(self).phase {
                Phase::Opening => match proceeded {
                    Ok(Progress::Send { bytes }) => {
                        &&& acknowledgement_refusal(
                            frame.head(),
                            frame.content(),
                            old(self).request,
                        ) is None
                        &&& final(self).phase == Phase::Registering
                        &&& final(self).session_id == frame.head().session_id
                        &&& bytes@ == crate::wire::register_bytes(
                            frame.head().flags & NETWORK_ORDER,
                            frame.head().session_id,
                            2,
                            old(self).priority,
                            crate::mib::TABLE@,
                        )
                        &&& crate::wire::header_in(bytes@) == Some(final(self).request)
                    },
                    Err(error) => *final(self) == *old(self) && acknowledgement_refusal(
                        frame.head(),
                        frame.content(),
                        old(self).request,
                    ) == Some(error@),
                    _ => false,
                },
                Phase::Registering => match proceeded {
                    Ok(Progress::Registered) => {
                        &&& acknowledgement_refusal(
                            frame.head(),
                            frame.content(),
                            old(self).request,
                        ) is None
                        &&& *final(self) == (Session { phase: Phase::Serving, ..*old(self) })
                    },
                    Err(error) => *final(self) == *old(self) && acknowledgement_refusal(
                        frame.head(),
                        frame.content(),
                        old(self).request,
                    ) == Some(error@),
                    _ => false,
                },
                Phase::Serving => *final(self) == *old(self) && match proceeded {
                    Ok(Progress::Serve(step)) => step_after(
                        old(self).session_id,
                        frame.head(),
                        frame.content(),
                        tables.current(),
                    ) == Ok::<StepView, crate::error::Report>(step@),
                    Err(error) => step_after(
                        old(self).session_id,
                        frame.head(),
                        frame.content(),
                        tables.current(),
                    ) == Err::<StepView, crate::error::Report>(error@),
                    _ => false,
                },
            },
    {
        match self.phase {
            Phase::Opening => match acknowledge(frame, &self.request) {
                Ok(opened) => {
                    let request: Request = register_request(&opened, self.priority);
                    self.phase = Phase::Registering;
                    self.session_id = opened.session_id;
                    self.request = request.header;
                    Ok(Progress::Send { bytes: request.bytes })
                },
                Err(error) => Err(error),
            },
            Phase::Registering => match acknowledge(frame, &self.request) {
                Ok(_) => {
                    self.phase = Phase::Serving;
                    Ok(Progress::Registered)
                },
                Err(error) => Err(error),
            },
            Phase::Serving => match respond(self.session_id, frame, tables) {
                Ok(step) => Ok(Progress::Serve(step)),
                Err(error) => Err(error),
            },
        }
    }
}

/// Whether some bytes are a response to the message with this header: a
/// response for the same session, transaction and packet, in the same byte order,
/// that is as long as it says.
pub open spec fn answers(answer: Seq<u8>, header: Header) -> bool {
    crate::wire::header_in(answer) matches Some(head) && {
        &&& head.version == 1
        &&& head.ty == Type::Response
        &&& head.session_id == header.session_id
        &&& head.transaction_id == header.transaction_id
        &&& head.packet_id == header.packet_id
        &&& crate::wire::network_order(head.flags) == crate::wire::network_order(header.flags)
        &&& !crate::wire::names_context(head.flags)
        &&& answer.len() == HEADER_SIZE + head.payload_length
    }
}

/// Whatever is sent after a message is a response to that message.
pub proof fn whatever_is_sent_answers_the_message(
    session_id: u32,
    header: Header,
    bytes: Seq<u8>,
    table: Option<Mib>,
)
    requires
        is_frame(header, bytes),
    ensures
        match step_after(session_id, header, bytes, table) {
            Ok(StepView::Send { bytes: answer, refused }) => answers(answer, header),
            Ok(StepView::SendAndClose { bytes: answer }) => answers(answer, header),
            _ => true,
        },
{
    if header.session_id != session_id {
        lemma_failure_answers(header, ResError::NotOpen);
    } else if header.ty == Type::Close {
        lemma_failure_answers(header, ResError::NoAgentXError);
    } else if header.ty != Type::CleanupSet {
        match outcome(header, bytes, table) {
            Ok((response, code)) => {
                lemma_outcome_can_be_written(header, bytes, table);
                lemma_outcome_replies(header, bytes, table);
                let code = match code {
                    Some(code) => code,
                    None => crate::wire::code_of(response.res_error),
                };
                lemma_response_answers(response, code, header);
            },
            Err(_) => {
                lemma_failure_answers(header, ResError::ParseError);
            },
        }
    }
}

/// Whether a response names the session, the transaction and the packet of a
/// message, and has its byte order.
spec fn replies(response: ResponseView, header: Header) -> bool {
    &&& response.flags == header.flags & NETWORK_ORDER
    &&& response.session_id == header.session_id
    &&& response.transaction_id == header.transaction_id
    &&& response.packet_id == header.packet_id
}

proof fn lemma_outcome_replies(header: Header, bytes: Seq<u8>, table: Option<Mib>)
    ensures
        outcome(header, bytes, table) matches Ok((response, code)) ==> replies(response, header),
{
}

proof fn lemma_response_answers(response: ResponseView, code: u16, header: Header)
    requires
        replies(response, header),
        crate::wire::can_be_written(response),
    ensures
        answers(crate::wire::response_bytes(response, code), header),
{
    let flags = header.flags;
    assert((flags & 16u8) & 16u8 == flags & 16u8) by (bit_vector);
    assert((flags & 16u8) & 8u8 == 0) by (bit_vector);
    lemma_payload_len(response, code);
    lemma_payload_len(response, 0);
    let payload = crate::wire::response_payload(response, code);
    crate::wire::a_written_header_is_read_back(
        18,
        response.flags,
        response.session_id,
        response.transaction_id,
        response.packet_id,
        payload.len() as u32,
        payload,
    );
}

proof fn lemma_failure_answers(header: Header, error: ResError)
    ensures
        answers(failure_bytes(header, error), header),
{
    let response = ResponseView { res_error: error, ..reply_to(header) };
    lemma_vars_len(response.vars, crate::wire::network_order(response.flags));
    lemma_response_answers(response, crate::wire::code_of(error), header);
}

/// A message ends the session only if it is a request to close it, or if it is
/// of a kind that gets no answer and breaks the rules of its kind. In
/// particular a request to read, to search or to test a change is answered
/// whatever it holds.
pub proof fn only_close_and_cleanup_end_a_session(
    session_id: u32,
    header: Header,
    bytes: Seq<u8>,
    table: Option<Mib>,
)
    ensures
        step_after(session_id, header, bytes, table) is Err ==> (header.ty == Type::Close
            && !crate::wire::is_close(bytes)) || (header.ty == Type::CleanupSet
            && header.payload_length != 0),
        step_after(session_id, header, bytes, table) matches Ok(StepView::SendAndClose { bytes: answer })
            ==> header.ty == Type::Close,
        header.session_id != session_id ==> step_after(session_id, header, bytes, table) is Ok,
{
}

/// Without a table every request to read that makes sense is answered with the
/// error that it cannot be processed.
pub proof fn without_a_table_reads_report_a_processing_error(header: Header, bytes: Seq<u8>)
    requires
        !crate::wire::names_context(header.flags),
        header.ty == Type::Get || header.ty == Type::GetNext || header.ty == Type::GetBulk,
        outcome(header, bytes, None) is Ok,
    ensures
        outcome(header, bytes, None) == Ok::<
            (ResponseView, Option<u16>),
            crate::error::Report,
        >((ResponseView { res_error: ResError::ProcessingError, ..reply_to(header) }, None)),
{
}

/// Whether a request to read makes sense does not depend on the table.
pub proof fn a_request_makes_sense_with_any_table(
    header: Header,
    bytes: Seq<u8>,
    one: Option<Mib>,
    another: Option<Mib>,
)
    ensures
        outcome(header, bytes, one) is Ok <==> outcome(header, bytes, another) is Ok,
        outcome(header, bytes, one) is Err ==> outcome(header, bytes, one) == outcome(
            header,
            bytes,
            another,
        ),
{
}

/// Nothing can be changed: a request to test, to make or to undo a change is
/// never answered without an error, unless it asks to test no change at all.
pub proof fn nothing_can_be_changed(header: Header, bytes: Seq<u8>, table: Option<Mib>)
    requires
        header.ty == Type::TestSet || header.ty == Type::CommitSet || header.ty == Type::UndoSet,
    ensures
        match outcome(header, bytes, table) {
            Ok((response, Some(code))) => code != 0,
            Ok((response, None)) => response.res_error != ResError::NoAgentXError || (header.ty
                == Type::TestSet && crate::wire::test_set_in(bytes) == Some(
                Seq::<(Seq<u32>, Option<Seq<u32>>)>::empty(),
            )),
            Err(_) => true,
        },
{
    if header.ty == Type::TestSet && crate::wire::test_set_in(bytes) is Some {
        let bindings = crate::wire::test_set_in(bytes)->0;
        assert(bindings.len() == 0 ==> bindings =~= seq![]);
    }
}

/// A request for the name of a row is answered with the row exactly if the links
/// that the table was made of lead to that row.
pub proof fn a_row_is_answered_exactly_if_the_links_lead_to_it(
    header: Header,
    bytes: Seq<u8>,
    mib: Mib,
    links: Seq<crate::link::ObservedLink>,
    i: int,
    row: crate::pairs::Pair,
)
    requires
        header.ty == Type::Get,
        !crate::wire::names_context(header.flags),
        crate::monitor::serves(mib, links),
        crate::wire::requested_ranges(bytes, 20) is Some,
        ranges_refusal(crate::wire::requested_ranges(bytes, 20)->0) is None,
        0 <= i < crate::wire::requested_ranges(bytes, 20)->0.len(),
        crate::wire::requested_ranges(bytes, 20)->0[i].start.components == crate::mib::row_name(
            row,
        ),
    ensures
        outcome(header, bytes, Some(mib)) matches Ok((response, code)) && {
            &&& code is None
            &&& response.res_error == ResError::NoAgentXError
            &&& response.vars.len() == crate::wire::requested_ranges(bytes, 20)->0.len()
            &&& response.vars[i] == crate::mib::answered(
                crate::mib::row_name(row),
                if crate::monitor::link_row(links, row) {
                    Value::Integer(1)
                } else {
                    Value::NoSuchInstance
                },
            )
        },
{
    crate::mib::a_row_is_looked_up_by_its_name(mib.rows(), row);
    assert(mib.rows().contains(row) <==> crate::monitor::link_row(links, row));
}

} // verus!

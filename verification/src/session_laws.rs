//! What holds of a session, whatever is received: how messages are made up of bytes, and
//! how what is answered relates to what was asked and to the table.

use vstd::prelude::*;

use crate::error::{Error, ErrorKind};
use crate::mib::{Mib, SearchRange, VarBind};
use crate::monitor::TableReader;
use crate::oid::Oid;
use crate::session::{
    Frame, FrameReader, Phase, Progress, ReadEvent, Request, Session, Step,
};
use crate::time::Span;
use crate::wire::{Header, ResError, Response, TestBinding, Type};

verus! {

/// Whether the numbers of a message with these flags have their highest byte first.
pub open spec fn high_first(flags: u8) -> bool {
    flags & 16 != 0
}

/// A message begins with a header that is accepted exactly if it is there as a whole, is
/// of version 1 and of a kind that there is, and announces a multiple of four bytes, at
/// most 1048576.
pub proof fn a_header_is_accepted_exactly_if_it_keeps_the_rules(
    bytes: &[u8],
    checked: Result<Header, Error>,
)
    requires
        call_ensures(crate::session::frame_header, (bytes,), checked),
    ensures
        checked is Ok <==> {
            &&& bytes@.len() >= 20
            &&& bytes@[0] == 1
            &&& 1 <= bytes@[1] <= 18
            &&& crate::wire::u32_at(bytes@, 16, high_first(bytes@[2])) <= 1048576
            &&& crate::wire::u32_at(bytes@, 16, high_first(bytes@[2])) % 4 == 0
        },
        checked matches Ok(header) ==> {
            &&& header.ty == crate::wire::type_of(bytes@[1])
            &&& header.flags == bytes@[2]
            &&& header.session_id == crate::wire::u32_at(bytes@, 4, high_first(bytes@[2]))
            &&& header.transaction_id == crate::wire::u32_at(bytes@, 8, high_first(bytes@[2]))
            &&& header.packet_id == crate::wire::u32_at(bytes@, 12, high_first(bytes@[2]))
            &&& header.payload_length == crate::wire::u32_at(bytes@, 16, high_first(bytes@[2]))
        },
        checked matches Err(error) ==> error@.kind == ErrorKind::InvalidData,
{
}

/// A message is put together of the pieces in which it comes: first what is missing of
/// its twenty bytes of header is read, then what that announces; it is whole exactly if
/// nothing is missing.
pub proof fn a_message_is_put_together_of_its_pieces(
    reader: FrameReader,
    missing: usize,
    chunk: &[u8],
    accepted: Result<FrameReader, Error>,
    frame: Option<Frame>,
)
    requires
        call_ensures(FrameReader::missing, (&reader,), missing),
        call_ensures(FrameReader::accept, (reader, chunk), accepted),
        call_ensures(FrameReader::finish, (reader,), frame),
        reader.received().len() >= 20 ==> crate::session::header_refusal(reader.received()) is None,
    ensures
        reader.received().len() < 20 ==> missing == 20 - reader.received().len(),
        reader.received().len() >= 20 ==> missing == 20 + crate::wire::u32_at(
            reader.received(),
            16,
            high_first(reader.received()[2]),
        ) - reader.received().len(),
        accepted matches Ok(after) ==> after.received() == reader.received() + chunk@,
        frame is Some <==> missing == 0,
        frame matches Some(frame) ==> frame.content() == reader.received(),
{
}

/// An attempt to read that was interrupted changes nothing; one that took too long, found
/// the end, or failed ends the message with that.
pub proof fn an_attempt_to_read_decides_on_the_message(
    reader: FrameReader,
    event: ReadEvent,
    after: Result<FrameReader, Error>,
)
    requires
        call_ensures(crate::session::proceed, (reader, event), after),
    ensures
        match event {
            ReadEvent::Interrupted => after is Ok && after->Ok_0.received() == reader.received(),
            ReadEvent::TimedOut => after is Err && after->Err_0@.kind == ErrorKind::TimedOut,
            ReadEvent::Failed(error) => after is Err && after->Err_0@ == error@,
            ReadEvent::Bytes(bytes) => {
                &&& bytes@.len() == 0 ==> after is Err && after->Err_0@.kind
                    == ErrorKind::UnexpectedEof
                &&& after is Ok ==> after->Ok_0.received() == reader.received() + bytes@
            },
        },
{
}

/// A read may take until the deadline, and no read begins after it.
pub proof fn a_read_may_take_until_the_deadline(
    deadline: Span,
    now: Span,
    left: Result<Span, Error>,
)
    requires
        call_ensures(crate::session::time_left, (deadline, now), left),
    ensures
        left is Ok <==> now.nanos < deadline.nanos,
        left matches Ok(left) ==> now.nanos + left.nanos == deadline.nanos,
        left matches Err(error) ==> error@.kind == ErrorKind::TimedOut,
{
}

/// The table is registered in the session that was opened, in the byte order of the
/// answer, with the priority that is asked for, and under its own identifier.
pub proof fn the_table_is_registered_with_its_priority(
    opened: Header,
    priority: u8,
    request: Request,
)
    requires
        call_ensures(crate::session::register_request, (&opened, priority), request),
    ensures
        request.header.ty == Type::Register,
        request.header.session_id == opened.session_id,
        request.header.packet_id == 2,
        request.header.transaction_id == 0,
        crate::wire::header_in(request.bytes@) == Some(request.header),
        request.bytes@.len() == 20 + request.header.payload_length,
        high_first(request.header.flags) == high_first(opened.flags),
        request.bytes@.len() == 64,
        request.bytes@[21] == priority,
        crate::wire::oid_in(request.bytes@.skip(24), high_first(opened.flags)) == Some(
            crate::oid::OidView {
                components: seq![1u32, 3, 6, 1, 2, 1, 31, 1, 2],
                inclusive: 0,
            },
        ),
{
    let flags = opened.flags;
    assert((flags & 16u8) & 16u8 == flags & 16u8) by (bit_vector);
    let root = seq![1u32, 3, 6, 1, 2, 1, 31, 1, 2];
    assert(crate::mib::TABLE@ =~= root);
    let order = high_first(flags);
    crate::wire::component_bytes_are_four_each(root, order);
    crate::wire::a_written_identifier_is_read_back(root, order, seq![]);
    let name = crate::wire::oid_bytes(root, order);
    assert(name + Seq::<u8>::empty() =~= name);
    assert(request.bytes@.skip(24) =~= name);
}

/// A message acknowledges a request exactly if it is a response with room for an error,
/// has the request's packet and transaction, and, unless a session is being opened, its
/// session, and reports neither an error nor a variable.
pub proof fn a_request_is_acknowledged_by_a_response_without_an_error(
    frame: Frame,
    request: Header,
    acknowledged: Result<Header, Error>,
    code: u16,
)
    requires
        call_ensures(crate::session::acknowledge, (&frame, &request), acknowledged),
        code == crate::wire::u16_at(frame.content(), 24, high_first(frame.head().flags)),
    ensures
        acknowledged is Ok <==> {
            &&& frame.head().ty == Type::Response
            &&& frame.head().payload_length >= 8
            &&& frame.head().packet_id == request.packet_id
            &&& frame.head().transaction_id == request.transaction_id
            &&& request.ty == Type::Open || frame.head().session_id == request.session_id
            &&& code == 0
            &&& frame.content()[26] == 0 && frame.content()[27] == 0
        },
        acknowledged matches Ok(header) ==> header == frame.head(),
{
}

/// An identifier may have up to 128 components; and a search may start only inclusively
/// or exclusively.
pub proof fn identifiers_have_at_most_128_components(
    components: Vec<u32>,
    valid: Result<(), Error>,
    ranges: Vec<SearchRange>,
    all: Result<(), Error>,
)
    requires
        call_ensures(crate::session::validate_oid, (&components,), valid),
        call_ensures(crate::session::validate_ranges, (&ranges,), all),
    ensures
        valid is Ok <==> components@.len() <= 128,
        all is Ok <==> forall|i: int|
            0 <= i < ranges@.len() ==> (#[trigger] ranges@[i]).start.components@.len() <= 128
                && ranges@[i].end.components@.len() <= 128 && ranges@[i].start.inclusive <= 1,
{
    let views = crate::mib::range_views(ranges@);
    assert(views.len() == ranges@.len());
    assert forall|i: int| 0 <= i < ranges@.len() implies #[trigger] views[i] == ranges@[i]@ by {}
    if all is Ok {
        assert forall|i: int| 0 <= i < ranges@.len() implies (
        #[trigger] ranges@[i]).start.components@.len() <= 128 && ranges@[i].end.components@.len()
            <= 128 && ranges@[i].start.inclusive <= 1 by {
            assert(views[i] == ranges@[i]@);
        }
    } else {
        let i = choose|i: int|
            0 <= i < views.len() && (crate::session::oversized(
                (#[trigger] views[i]).start.components,
            ) || crate::session::oversized(views[i].end.components) || views[i].start.inclusive
                > 1);
        assert(views[i] == ranges@[i]@);
    }
}

/// Whether a response echoes the message that it answers.
pub open spec fn echoes(response: Response, header: Header) -> bool {
    &&& response.session_id == header.session_id
    &&& response.transaction_id == header.transaction_id
    &&& response.packet_id == header.packet_id
    &&& response.flags == header.flags & 16
}

/// Whatever is answered echoes the session, the transaction, the packet and the byte order
/// of what was asked. A context is not supported; a ping is answered; nothing can be
/// changed; what is not for a subagent is denied.
pub proof fn a_message_is_answered_by_its_kind(
    frame: Frame,
    tables: TableReader,
    answered: Result<(Response, Option<u16>), Error>,
)
    requires
        call_ensures(crate::session::dispatch, (&frame, &tables), answered),
    ensures
        answered matches Ok((response, code)) ==> echoes(response, frame.head()),
        frame.head().flags & 8 != 0 ==> (answered matches Ok((response, code)) && response.res_error
            == ResError::UnsupportedContext && code is None && response@.vars.len() == 0),
        frame.head().flags & 8 == 0 ==> match frame.head().ty {
            Type::Get | Type::GetNext | Type::GetBulk => answered matches Ok((response, code))
                ==> code is None && response.res_index == 0 && (response.res_error
                == ResError::ProcessingError <==> tables.current() is None) && (response.res_error
                == ResError::NoAgentXError <==> tables.current() is Some),
            Type::TestSet => match crate::wire::test_set_in(frame.content()) {
                None => answered is Err,
                Some(bindings) => {
                    &&& answered is Ok <==> forall|i: int|
                        0 <= i < bindings.len() ==> (#[trigger] bindings[i]).0.len() <= 128 && (
                        bindings[i].1 is Some ==> bindings[i].1->0.len() <= 128)
                    &&& answered matches Ok((response, code)) ==> response@.vars.len() == 0 && if bindings.len()
                        > 0 {
                        code == Some(17u16) && response.res_index == 1
                    } else {
                        code is None && response.res_error == ResError::NoAgentXError
                    }
                },
            },
            Type::CommitSet => answered is Ok <==> frame.head().payload_length == 0,
            Type::UndoSet => answered is Ok <==> frame.head().payload_length == 0,
            Type::Ping => answered matches Ok((response, code)) && code is None
                && response.res_error == ResError::NoAgentXError && response@.vars.len() == 0,
            _ => answered matches Ok((response, code)) && code is None && response.res_error
                == ResError::RequestDenied && response@.vars.len() == 0,
        },
        frame.head().flags & 8 == 0 && frame.head().ty == Type::CommitSet ==> (
        answered matches Ok((response, code)) ==> code == Some(14u16) && response.res_index == 0),
        frame.head().flags & 8 == 0 && frame.head().ty == Type::UndoSet ==> (
        answered matches Ok((response, code)) ==> code == Some(15u16) && response.res_index == 0),
{
    if frame.head().ty == Type::TestSet && frame.head().flags & 8 == 0 {
        if let Some(bindings) = crate::wire::test_set_in(frame.content()) {
            if answered is Err {
                let i = choose|i: int|
                    0 <= i < bindings.len() && (crate::session::oversized(
                        (#[trigger] bindings[i]).0,
                    ) || (bindings[i].1 is Some && crate::session::oversized(bindings[i].1->0)));
                assert(bindings[i].0.len() > 128 || bindings[i].1->0.len() > 128);
            }
        }
    }
}

/// A request to read is answered with one variable for each range: what looking up the
/// start of the range gives, or what a search over the range finds. It makes sense
/// exactly if its ranges can be read and keep the rules.
pub proof fn a_read_is_answered_by_the_table(
    frame: Frame,
    tables: TableReader,
    answered: Result<(Response, Option<u16>), Error>,
    mib: Mib,
    ranges: Seq<crate::mib::RangeView>,
    i: int,
    name: Oid,
    looked_up: VarBind,
    range: SearchRange,
    found: VarBind,
)
    requires
        call_ensures(crate::session::dispatch, (&frame, &tables), answered),
        frame.head().flags & 8 == 0,
        frame.head().ty == Type::Get || frame.head().ty == Type::GetNext,
        tables.current() == Some(mib),
        crate::wire::requested_ranges(frame.content(), 20) == Some(ranges),
        forall|k: int|
            0 <= k < ranges.len() ==> (#[trigger] ranges[k]).start.components.len() <= 128
                && ranges[k].end.components.len() <= 128 && ranges[k].start.inclusive <= 1,
        0 <= i < ranges.len(),
        name@.components == ranges[i].start.components,
        call_ensures(Mib::get, (&mib, &name), looked_up),
        range@ == ranges[i],
        call_ensures(Mib::get_next, (&mib, &range), found),
    ensures
        answered matches Ok((response, code)) && {
            &&& response.res_error == ResError::NoAgentXError
            &&& response@.vars.len() == ranges.len()
            &&& frame.head().ty == Type::Get ==> response@.vars[i] == looked_up@
            &&& frame.head().ty == Type::GetNext ==> response@.vars[i] == found@
        },
{
    assert(crate::session::ranges_refusal(ranges) is None);
}

/// A bulk request is answered by the table with the numbers of ranges and of repetitions
/// that it has behind its header.
pub proof fn a_bulk_request_is_answered_by_the_table(
    frame: Frame,
    tables: TableReader,
    answered: Result<(Response, Option<u16>), Error>,
    mib: Mib,
    ranges: Vec<SearchRange>,
    non_repeaters: u16,
    max_repetitions: u16,
    found: Vec<VarBind>,
)
    requires
        call_ensures(crate::session::dispatch, (&frame, &tables), answered),
        frame.head().flags & 8 == 0,
        frame.head().ty == Type::GetBulk,
        tables.current() == Some(mib),
        crate::wire::requested_ranges(frame.content(), 24) == Some(
            crate::mib::range_views(ranges@),
        ),
        forall|k: int|
            0 <= k < ranges@.len() ==> (#[trigger] ranges@[k]).start.components@.len() <= 128
                && ranges@[k].end.components@.len() <= 128 && ranges@[k].start.inclusive <= 1,
        non_repeaters == crate::wire::u16_at(
            frame.content(),
            20,
            high_first(frame.content()[2]),
        ),
        max_repetitions == crate::wire::u16_at(
            frame.content(),
            22,
            high_first(frame.content()[2]),
        ),
        call_ensures(Mib::get_bulk, (&mib, ranges, non_repeaters, max_repetitions), found),
    ensures
        answered matches Ok((response, code)) && response.res_error == ResError::NoAgentXError
            && response@.vars == crate::mib::var_views(found@),
{
    let views = crate::mib::range_views(ranges@);
    assert(views.len() == ranges@.len());
    assert forall|k: int| 0 <= k < views.len() implies !crate::session::oversized(
        (#[trigger] views[k]).start.components,
    ) && !crate::session::oversized(views[k].end.components) && views[k].start.inclusive <= 1 by {
        assert(views[k] == ranges@[k]@);
    }
    assert(crate::session::ranges_refusal(views) is None);
}

/// Whether some bytes are a response to a message that reports the error with this
/// number: a response for the same session, transaction and packet, in the same byte
/// order, as long as it says.
pub open spec fn reports(answer: Seq<u8>, header: Header, code: u16) -> bool {
    &&& crate::session::answers(answer, header)
    &&& crate::wire::u16_at(answer, 24, high_first(header.flags)) == code
}

/// A message for another session is answered with error 257. A request to close is
/// answered without an error and ends the session; a clean-up is not answered. All else
/// is answered: with what it is dispatched to, or, if it makes no sense, with error 266;
/// and the session goes on.
pub proof fn every_message_is_answered(
    session_id: u32,
    frame: Frame,
    tables: TableReader,
    decided: Result<Step, Error>,
    answered: Result<(Response, Option<u16>), Error>,
)
    requires
        call_ensures(crate::session::respond, (session_id, &frame, &tables), decided),
        call_ensures(crate::session::dispatch, (&frame, &tables), answered),
        crate::session::is_frame(frame.head(), frame.content()),
    ensures
        if frame.head().session_id != session_id {
            decided matches Ok(Step::Send { bytes, refused }) && refused is None && reports(
                bytes@,
                frame.head(),
                257,
            )
        } else if frame.head().ty == Type::Close {
            match decided {
                Ok(Step::SendAndClose { bytes }) => reports(bytes@, frame.head(), 0)
                    && frame.content().len() > 20 && 1 <= frame.content()[20] <= 6,
                Err(_) => frame.content().len() <= 20 || frame.content()[20] < 1
                    || frame.content()[20] > 6,
                _ => false,
            }
        } else if frame.head().ty == Type::CleanupSet {
            match decided {
                Ok(Step::Ignore) => frame.head().payload_length == 0,
                Err(_) => frame.head().payload_length != 0,
                _ => false,
            }
        } else {
            decided matches Ok(Step::Send { bytes, refused }) && match answered {
                Ok((response, code)) => {
                    &&& refused is None
                    &&& reports(
                        bytes@,
                        frame.head(),
                        match code {
                            Some(code) => code,
                            None => crate::wire::code_of(response.res_error),
                        },
                    )
                    &&& crate::wire::u16_at(bytes@, 26, high_first(frame.head().flags))
                        == response.res_index
                    &&& bytes@.skip(28) == crate::wire::vars_bytes(
                        response@.vars,
                        high_first(frame.head().flags),
                    )
                },
                Err(error) => refused is Some && refused->0@ == error@ && reports(
                    bytes@,
                    frame.head(),
                    266,
                ),
            }
        },
{
    let header = frame.head();
    let flags = header.flags;
    assert((flags & 16u8) & 16u8 == flags & 16u8) by (bit_vector);
    crate::session::whatever_is_sent_answers_the_message(
        session_id,
        header,
        frame.content(),
        tables.current(),
    );
    let plain = crate::session::reply_to(header);
    crate::wire::a_response_reports_its_error(
        crate::wire::ResponseView { res_error: ResError::NotOpen, ..plain },
        257,
    );
    crate::wire::a_response_reports_its_error(
        crate::wire::ResponseView { res_error: ResError::NoAgentXError, ..plain },
        0,
    );
    crate::wire::a_response_reports_its_error(
        crate::wire::ResponseView { res_error: ResError::ParseError, ..plain },
        266,
    );
    if let Ok((response, code)) = answered {
        crate::wire::a_response_reports_its_error(
            response@,
            match code {
                Some(code) => code,
                None => crate::wire::code_of(response.res_error),
            },
        );
    }
}

/// The errors have the numbers that the protocol has for them.
pub proof fn errors_have_their_numbers(error: ResError, code: u16)
    requires
        call_ensures(ResError::code, (&error,), code),
    ensures
        error == ResError::NoAgentXError <==> code == 0,
        error == ResError::OpenFailed <==> code == 256,
        error == ResError::NotOpen <==> code == 257,
        error == ResError::UnsupportedContext <==> code == 262,
        error == ResError::DuplicateRegistration <==> code == 263,
        error == ResError::ParseError <==> code == 266,
        error == ResError::RequestDenied <==> code == 267,
        error == ResError::ProcessingError <==> code == 268,
        code == crate::wire::code_of(error),
{
}

/// A session is opened first, then the table is registered, then it is served; each step
/// needs its acknowledgement, a message that is none changes nothing, and the session
/// that is served is the one that was opened.
pub proof fn a_session_is_opened_registered_and_served(frame: Frame, tables: TableReader)
    ensures
        forall|session: &mut Session, proceeded: Result<Progress, Error>| #[trigger]
            call_ensures(Session::proceed, (session, &frame, &tables), proceeded) ==> {
                let acknowledged = crate::session::acknowledgement_refusal(
                    frame.head(),
                    frame.content(),
                    session.request,
                ) is None;
                &&& final(session).priority == session.priority
                &&& session.phase == Phase::Opening ==> {
                    &&& proceeded is Ok <==> acknowledged
                    &&& proceeded is Ok ==> proceeded->Ok_0 is Send && final(session).phase
                        == Phase::Registering && final(session).session_id
                        == frame.head().session_id && final(session).request.ty == Type::Register
                        && final(session).request.session_id == frame.head().session_id
                    &&& proceeded is Err ==> *final(session) == *session
                }
                &&& session.phase == Phase::Registering ==> {
                    &&& proceeded is Ok <==> acknowledged
                    &&& proceeded is Ok ==> proceeded->Ok_0 is Registered && final(session).phase
                        == Phase::Serving && final(session).session_id == session.session_id
                    &&& proceeded is Err ==> *final(session) == *session
                }
                &&& session.phase == Phase::Serving ==> {
                    &&& *final(session) == *session
                    &&& proceeded is Ok ==> proceeded->Ok_0 is Serve
                }
            },
{
    assert forall|session: &mut Session, proceeded: Result<Progress, Error>| #[trigger]
        call_ensures(Session::proceed, (session, &frame, &tables), proceeded) && session.phase
            == Phase::Opening && proceeded is Ok implies final(session).request.ty
        == Type::Register && final(session).request.session_id == frame.head().session_id by {
        let flags = frame.head().flags & 16;
        let root = crate::mib::TABLE@;
        let payload = crate::wire::register_payload(
            session.priority,
            root,
            crate::wire::network_order(flags),
        );
        crate::wire::a_written_header_is_read_back(
            3,
            flags,
            frame.head().session_id,
            0,
            2,
            payload.len() as u32,
            payload,
        );
    }
}

/// A session begins before it is opened. Until the table is served the master agent has
/// five seconds to begin an answer, and then as long as it likes.
pub proof fn a_master_agent_has_five_seconds_until_the_table_is_served(
    priority: u8,
    begun: (Session, Vec<u8>),
    session: Session,
    timeout: Option<Span>,
)
    requires
        call_ensures(Session::begin, (priority,), begun),
        call_ensures(Session::idle_timeout, (&session,), timeout),
    ensures
        begun.0.phase == Phase::Opening,
        begun.0.priority == priority,
        begun.0.request.ty == Type::Open,
        session.phase == Phase::Serving <==> timeout is None,
        timeout matches Some(timeout) ==> timeout.nanos == 5_000_000_000,
{
}

/// A session is opened for five seconds of patience, in network byte order and with the
/// first packet, under the name of the program.
pub proof fn a_session_is_opened_under_the_name_of_the_program(request: Request)
    requires
        call_ensures(crate::session::open_request, (), request),
    ensures
        crate::wire::header_in(request.bytes@) == Some(request.header),
        request.header.ty == Type::Open,
        request.header.version == 1,
        request.header.flags == 16,
        request.header.session_id == 0,
        request.header.transaction_id == 0,
        request.header.packet_id == 1,
        request.bytes@.len() == 48,
        request.header.payload_length == 28,
        request.bytes@[20] == 5,
        request.bytes@.subrange(32, 46) == vstd::utf8::encode_utf8("agentx-ifstack"@),
{
    reveal_strlit("agentx-ifstack");
    vstd::utf8::is_ascii_chars_encode_utf8("agentx-ifstack"@);
    let text = vstd::utf8::encode_utf8("agentx-ifstack"@);
    assert(text.len() == 14);
    assert(crate::wire::padded(text).len() == 16);
    let payload = crate::wire::open_payload(5, "agentx-ifstack"@, crate::wire::network_order(16));
    assert(payload.len() == 28);
    assert(request.bytes@.subrange(32, 46) =~= text);
}

/// A request that is rejected is reported with its kind and with the error, by name.
pub proof fn a_rejected_request_is_reported_by_name(
    frame: Frame,
    request: Header,
    acknowledged: Result<Header, Error>,
    code: u16,
)
    requires
        call_ensures(crate::session::acknowledge, (&frame, &request), acknowledged),
        code == crate::wire::u16_at(frame.content(), 24, high_first(frame.head().flags)),
        frame.head().ty == Type::Response,
        frame.head().payload_length >= 8,
        frame.head().packet_id == request.packet_id,
        frame.head().transaction_id == request.transaction_id,
        request.ty == Type::Open || frame.head().session_id == request.session_id,
        256 <= code <= 268,
    ensures
        acknowledged matches Err(error) && error@.kind == ErrorKind::Other,
        request.ty == Type::Open && code == 256 ==> acknowledged->Err_0@.message == "AgentX "@
            + "Open"@ + " rejected: "@ + "OpenFailed"@,
        request.ty == Type::Register && code == 263 ==> acknowledged->Err_0@.message == "AgentX "@
            + "Register"@ + " rejected: "@ + "DuplicateRegistration"@,
        request.ty == Type::Register && code == 267 ==> acknowledged->Err_0@.message == "AgentX "@
            + "Register"@ + " rejected: "@ + "RequestDenied"@,
        acknowledged->Err_0@.message == "AgentX "@ + crate::wire::message_name(request.ty)
            + " rejected: "@ + crate::wire::error_name(code),
{
}

/// An error is told by its number, and has a name of its own.
pub proof fn an_error_is_told_by_its_number(
    code: u16,
    error: Option<ResError>,
    known: ResError,
    number: u16,
    name: &'static str,
)
    requires
        call_ensures(ResError::from_code, (code,), error),
        call_ensures(ResError::code, (&known,), number),
        call_ensures(ResError::name, (&known,), name),
    ensures
        error is Some <==> code == 0 || 256 <= code <= 268,
        error == Some(known) ==> number == code,
        known == ResError::NoAgentXError ==> name@ == "NoAgentXError"@,
        known == ResError::OpenFailed ==> name@ == "OpenFailed"@,
        known == ResError::NotOpen ==> name@ == "NotOpen"@,
        known == ResError::IndexWrongType ==> name@ == "IndexWrongType"@,
        known == ResError::IndexAlreadyAllocated ==> name@ == "IndexAlreadyAllocated"@,
        known == ResError::IndexNoneAvailable ==> name@ == "IndexNoneAvailable"@,
        known == ResError::IndexNotAllocated ==> name@ == "IndexNotAllocated"@,
        known == ResError::UnsupportedContext ==> name@ == "UnsupportedContext"@,
        known == ResError::DuplicateRegistration ==> name@ == "DuplicateRegistration"@,
        known == ResError::UnknownRegistration ==> name@ == "UnknownRegistration"@,
        known == ResError::UnknownAgentCaps ==> name@ == "UnknownAgentCaps"@,
        known == ResError::ParseError ==> name@ == "ParseError"@,
        known == ResError::RequestDenied ==> name@ == "RequestDenied"@,
        known == ResError::ProcessingError ==> name@ == "ProcessingError"@,
{
}

/// A message begins with one byte, and a response to it before anything is known has no
/// error and no variable.
pub proof fn a_message_begins_with_one_byte(
    first: u8,
    reader: FrameReader,
    header: Header,
    response: Response,
    bindings: Option<Vec<TestBinding>>,
    tested: Result<(Response, Option<u16>), Error>,
)
    requires
        call_ensures(FrameReader::new, (first,), reader),
        call_ensures(crate::session::reply, (&header,), response),
        call_ensures(crate::session::answer_test_set, (&header, bindings), tested),
    ensures
        reader.received() == seq![first],
        echoes(response, header),
        response.res_error == ResError::NoAgentXError,
        response.res_index == 0,
        response@.vars.len() == 0,
        bindings is None ==> tested is Err,
        tested matches Ok((response, code)) ==> echoes(response, header) && (code == Some(17u16)
            <==> bindings->0@.len() > 0),
{
    if let Some(list) = bindings {
        assert(crate::wire::test_views(list@).len() == list@.len());
    }
}

/// A message is refused once its header is there, exactly if that is not accepted.
pub proof fn a_message_is_refused_by_its_header(
    reader: FrameReader,
    chunk: &[u8],
    accepted: Result<FrameReader, Error>,
    all: &[u8],
    checked: Result<Header, Error>,
)
    requires
        call_ensures(FrameReader::accept, (reader, chunk), accepted),
        all@ == reader.received() + chunk@,
        call_ensures(crate::session::frame_header, (all,), checked),
    ensures
        all@.len() < 20 ==> accepted is Ok,
        all@.len() >= 20 ==> (accepted is Ok <==> checked is Ok),
        all@.len() >= 20 && accepted is Err ==> accepted->Err_0@ == checked->Err_0@,
{
}

/// Whether a range has no identifier of more than 128 components, and a start that is
/// inclusive or exclusive.
pub open spec fn keeps_the_rules(range: crate::mib::RangeView) -> bool {
    &&& range.start.components.len() <= 128
    &&& range.end.components.len() <= 128
    &&& range.start.inclusive <= 1
}

/// A request to read makes sense exactly if its ranges can be read and each keeps the rules.
pub proof fn a_request_to_read_keeps_the_rules(
    frame: Frame,
    tables: TableReader,
    answered: Result<(Response, Option<u16>), Error>,
    ranges: Option<Seq<crate::mib::RangeView>>,
)
    requires
        call_ensures(crate::session::dispatch, (&frame, &tables), answered),
        frame.head().flags & 8 == 0,
        frame.head().ty == Type::Get || frame.head().ty == Type::GetNext || frame.head().ty
            == Type::GetBulk,
        ranges == crate::wire::requested_ranges(
            frame.content(),
            if frame.head().ty == Type::GetBulk {
                24
            } else {
                20
            },
        ),
    ensures
        answered is Ok <==> ranges is Some && forall|i: int|
            0 <= i < ranges->0.len() ==> keeps_the_rules(#[trigger] ranges->0[i]),
{
    if ranges is Some {
        let list = ranges->0;
        if crate::session::ranges_refusal(list) is None {
            assert forall|i: int| 0 <= i < list.len() implies keeps_the_rules(
                #[trigger] list[i],
            ) by {
                assert(!crate::session::oversized(list[i].start.components));
            }
        } else if exists|i: int|
            0 <= i < list.len() && (crate::session::oversized(
                (#[trigger] list[i]).start.components,
            ) || crate::session::oversized(list[i].end.components)) {
            let i = choose|i: int|
                0 <= i < list.len() && (crate::session::oversized(
                    (#[trigger] list[i]).start.components,
                ) || crate::session::oversized(list[i].end.components));
            assert(!keeps_the_rules(list[i]));
        } else {
            let i = choose|i: int|
                0 <= i < list.len() && (#[trigger] list[i]).start.inclusive > 1;
            assert(!keeps_the_rules(list[i]));
        }
    }
}

/// A session that is served responds as to its own number; and one that has been opened
/// registers the table with its priority.
pub proof fn a_session_responds_as_to_its_own_number(
    frame: Frame,
    tables: TableReader,
    number: u32,
    decided: Result<Step, Error>,
    head: Header,
    priority: u8,
    request: Request,
)
    requires
        call_ensures(crate::session::respond, (number, &frame, &tables), decided),
        head == frame.head(),
        call_ensures(crate::session::register_request, (&head, priority), request),
    ensures
        forall|session: &mut Session, proceeded: Result<Progress, Error>| #[trigger]
            call_ensures(Session::proceed, (session, &frame, &tables), proceeded) ==> {
                &&& session.phase == Phase::Serving && session.session_id == number ==> {
                    &&& proceeded is Ok <==> decided is Ok
                    &&& proceeded is Ok ==> proceeded->Ok_0 is Serve && proceeded->Ok_0->Serve_0@
                        == decided->Ok_0@
                }
                &&& session.phase == Phase::Opening && session.priority == priority && proceeded
                    is Ok ==> proceeded->Ok_0->Send_bytes@ == request.bytes@
                    && final(session).request == request.header
            },
{
}

} // verus!

//! Lists of attributes, as the kernel puts them into its messages, and the one
//! fault in them that must be known before a message is decoded.
//!
//! The fault is a lowest port that is not of two bytes. What stands before it in a
//! message may be malformed too, and counts first: so a message with such a fault
//! is decoded with the length of the faulty attribute struck out, which ends the
//! list there.

use vstd::prelude::*;

use crate::netlink::HostOrder;
use crate::wire::u16_from;

verus! {

/// The first attribute of a list, where the next one begins, and what is left from
/// there on.
pub struct First {
    pub kind: u16,
    pub value: Seq<u8>,
    pub next: int,
    pub rest: Seq<u8>,
}

/// A length with the bytes that fill it up to a multiple of four.
pub open spec fn padded(length: int) -> int {
    (length + 3) / 4 * 4
}

/// The first attribute of a list, if there is one and it is whole. It begins with
/// its length, which counts these four bytes too, and its kind, of which the two
/// highest bits are marks.
pub open spec fn first_in(bytes: Seq<u8>, high_first: bool) -> Option<First> {
    let length = crate::wire::u16_at(bytes, 0, high_first) as int;
    if bytes.len() < 4 || length < 4 || length > bytes.len() {
        None
    } else {
        let next = if padded(length) < bytes.len() {
            padded(length)
        } else {
            bytes.len() as int
        };
        Some(
            First {
                kind: crate::wire::u16_at(bytes, 2, high_first) % 0x4000,
                value: bytes.subrange(4, length),
                next,
                rest: bytes.skip(next),
            },
        )
    }
}

/// What the data of an interface of some kind may hold: a lowest port; one other
/// interface, as the first attribute; or other interfaces, as attributes.
#[derive(Clone, Copy, Debug, PartialEq, Eq, Structural)]
pub enum DataKind {
    Port,
    Peer,
    Peers,
    Plain,
}

/// Whether some bytes are a name, with or without a zero at the end.
pub open spec fn names(bytes: Seq<u8>, name: Seq<u8>) -> bool {
    bytes == name || bytes == name.push(0)
}

/// What the data may hold of an interface whose kind has this name: "bareudp",
/// "veth", "vxcan" or "netkit".
pub open spec fn data_kind(bytes: Seq<u8>) -> DataKind {
    if names(bytes, seq![98u8, 97, 114, 101, 117, 100, 112]) {
        DataKind::Port
    } else if names(bytes, seq![118u8, 101, 116, 104]) || names(
        bytes,
        seq![118u8, 120, 99, 97, 110],
    ) {
        DataKind::Peer
    } else if names(bytes, seq![110u8, 101, 116, 107, 105, 116]) {
        DataKind::Peers
    } else {
        DataKind::Plain
    }
}

/// What comes of looking for the fault: there is none; a list is broken before there
/// is one; or the position of the attribute that has it.
pub enum Scan {
    Clean,
    Broken,
    Fault(int),
}

impl Scan {
    /// The same, counted from so many bytes before.
    pub open spec fn moved(self, by: int) -> Scan {
        match self {
            Scan::Fault(at) => Scan::Fault(at + by),
            _ => self,
        }
    }

    /// What comes of it if `rest` comes of what is behind, so many bytes further.
    pub open spec fn before(self, rest: Scan, by: int) -> Scan {
        match self {
            Scan::Clean => rest.moved(by),
            _ => self,
        }
    }
}

/// Looks for the fault in data of this kind, in themselves or in what they say of
/// another interface.
pub open spec fn data_scan(bytes: Seq<u8>, kind: DataKind, high_first: bool) -> Scan
    decreases bytes.len(),
{
    if kind == DataKind::Plain || bytes.len() == 0 {
        Scan::Clean
    } else {
        match first_in(bytes, high_first) {
            None => Scan::Broken,
            Some(first) => match kind {
                DataKind::Port => if first.kind == 3 && first.value.len() != 2 {
                    Scan::Fault(0)
                } else {
                    data_scan(first.rest, kind, high_first).moved(first.next)
                },
                DataKind::Peer => if first.kind == 1 {
                    link_scan(first.value, high_first).moved(4)
                } else {
                    Scan::Clean
                },
                _ => if first.kind == 1 {
                    link_scan(first.value, high_first).moved(4).before(
                        data_scan(first.rest, kind, high_first),
                        first.next,
                    )
                } else {
                    data_scan(first.rest, kind, high_first).moved(first.next)
                },
            },
        }
    }
}

/// Looks for the fault in what is said of the kind of an interface: a list of names
/// (kind 1) and data (kind 2), which belong to the name before them.
pub open spec fn infos_scan(bytes: Seq<u8>, kind: DataKind, high_first: bool) -> Scan
    decreases bytes.len(),
{
    if bytes.len() == 0 {
        Scan::Clean
    } else {
        match first_in(bytes, high_first) {
            None => Scan::Broken,
            Some(first) => if first.kind == 1 {
                infos_scan(first.rest, data_kind(first.value), high_first).moved(first.next)
            } else if first.kind == 2 {
                data_scan(first.value, kind, high_first).moved(4).before(
                    infos_scan(first.rest, kind, high_first),
                    first.next,
                )
            } else {
                infos_scan(first.rest, kind, high_first).moved(first.next)
            },
        }
    }
}

/// Looks for the fault in the attributes of an interface. Those of kind 18 say what
/// kind it is.
pub open spec fn fields_scan(bytes: Seq<u8>, high_first: bool) -> Scan
    decreases bytes.len(),
{
    if bytes.len() == 0 {
        Scan::Clean
    } else {
        match first_in(bytes, high_first) {
            None => Scan::Broken,
            Some(first) => if first.kind == 18 {
                infos_scan(first.value, DataKind::Plain, high_first).moved(4).before(
                    fields_scan(first.rest, high_first),
                    first.next,
                )
            } else {
                fields_scan(first.rest, high_first).moved(first.next)
            },
        }
    }
}

/// Looks for the fault in what some bytes say of an interface. The attributes stand
/// after sixteen other bytes.
pub open spec fn link_scan(bytes: Seq<u8>, high_first: bool) -> Scan
    decreases bytes.len(),
{
    if bytes.len() < 16 {
        Scan::Broken
    } else {
        fields_scan(bytes.skip(16), high_first).moved(16)
    }
}

/// Some bytes with the length of the attribute at this position struck out.
pub open spec fn struck(bytes: Seq<u8>, at: int) -> Seq<u8> {
    bytes.update(at, 0).update(at + 1, 0)
}

proof fn lemma_struck_first(bytes: Seq<u8>, high_first: bool)
    requires
        first_in(bytes, high_first) is Some,
    ensures
        first_in(struck(bytes, 0), high_first) is None,
{
    let after = struck(bytes, 0);
    assert(after[0] == 0 && after[1] == 0);
}

proof fn lemma_struck_value(bytes: Seq<u8>, at: int, high_first: bool)
    requires
        first_in(bytes, high_first) matches Some(first) && 0 <= at && at + 2 <= first.value.len(),
    ensures
        first_in(struck(bytes, at + 4), high_first) == Some(
            First {
                value: struck(first_in(bytes, high_first)->0.value, at),
                ..first_in(bytes, high_first)->0
            },
        ),
{
    let first = first_in(bytes, high_first)->0;
    let length = crate::wire::u16_at(bytes, 0, high_first) as int;
    let after = struck(bytes, at + 4);
    assert(forall|i: int| 0 <= i < 4 ==> after[i] == bytes[i]);
    assert(after.subrange(4, length) =~= struck(bytes.subrange(4, length), at));
    assert(after.skip(first.next) =~= bytes.skip(first.next));
}

proof fn lemma_struck_rest(bytes: Seq<u8>, at: int, high_first: bool)
    requires
        first_in(bytes, high_first) matches Some(first) && 0 <= at && at + 2 <= first.rest.len(),
    ensures
        first_in(struck(bytes, at + first_in(bytes, high_first)->0.next), high_first) == Some(
            First {
                rest: struck(first_in(bytes, high_first)->0.rest, at),
                ..first_in(bytes, high_first)->0
            },
        ),
{
    let first = first_in(bytes, high_first)->0;
    let length = crate::wire::u16_at(bytes, 0, high_first) as int;
    let after = struck(bytes, at + first.next);
    assert(length <= first.next);
    assert(forall|i: int| 0 <= i < 4 ==> after[i] == bytes[i]);
    assert(after.subrange(4, length) =~= bytes.subrange(4, length));
    assert(after.skip(first.next) =~= struck(bytes.skip(first.next), at));
}

proof fn lemma_data_step(bytes: Seq<u8>, kind: DataKind, high_first: bool)
    requires
        kind != DataKind::Plain,
        first_in(bytes, high_first) is Some,
    ensures
        data_scan(bytes, kind, high_first) == ({
            let first = first_in(bytes, high_first)->0;
            let own = if kind == DataKind::Port {
                if first.kind == 3 && first.value.len() != 2 {
                    Scan::Fault(0)
                } else {
                    Scan::Clean
                }
            } else if first.kind == 1 {
                link_scan(first.value, high_first).moved(4)
            } else {
                Scan::Clean
            };
            if kind == DataKind::Peer {
                own
            } else {
                own.before(data_scan(first.rest, kind, high_first), first.next)
            }
        }),
{
}

proof fn lemma_data_struck(bytes: Seq<u8>, kind: DataKind, high_first: bool)
    requires
        data_scan(bytes, kind, high_first) is Fault,
    ensures
        data_scan(bytes, kind, high_first) matches Scan::Fault(at) && {
            &&& 0 <= at && at + 2 <= bytes.len()
            &&& data_scan(struck(bytes, at), kind, high_first) is Broken
        },
    decreases bytes.len(),
{
    assert(kind != DataKind::Plain && first_in(bytes, high_first) is Some);
    let first = first_in(bytes, high_first)->0;
    let at = data_scan(bytes, kind, high_first)->Fault_0;
    lemma_data_step(bytes, kind, high_first);
    if kind == DataKind::Port && first.kind == 3 && first.value.len() != 2 {
        lemma_struck_first(bytes, high_first);
    } else if kind != DataKind::Port && first.kind == 1 && link_scan(first.value, high_first)
        is Fault {
        a_struck_message_has_no_fault(first.value, high_first);
        lemma_data_value_struck(bytes, at - 4, kind, high_first);
    } else {
        lemma_data_struck(first.rest, kind, high_first);
        lemma_data_rest_struck(bytes, at - first.next, kind, high_first);
    }
}

proof fn lemma_data_value_struck(bytes: Seq<u8>, at: int, kind: DataKind, high_first: bool)
    requires
        kind == DataKind::Peer || kind == DataKind::Peers,
        first_in(bytes, high_first) matches Some(first) && {
            &&& 0 <= at && at + 2 <= first.value.len()
            &&& first.kind == 1
            &&& link_scan(struck(first.value, at), high_first) is Broken
        },
    ensures
        data_scan(struck(bytes, at + 4), kind, high_first) is Broken,
{
    lemma_struck_value(bytes, at, high_first);
    lemma_data_step(struck(bytes, at + 4), kind, high_first);
}

proof fn lemma_data_rest_struck(bytes: Seq<u8>, at: int, kind: DataKind, high_first: bool)
    requires
        first_in(bytes, high_first) matches Some(first) && {
            &&& 0 <= at && at + 2 <= first.rest.len()
            &&& match kind {
                DataKind::Port => !(first.kind == 3 && first.value.len() != 2),
                DataKind::Peers => first.kind == 1 ==> link_scan(first.value, high_first) is Clean,
                _ => false,
            }
            &&& data_scan(struck(first.rest, at), kind, high_first) is Broken
        },
    ensures
        data_scan(
            struck(bytes, at + first_in(bytes, high_first)->0.next),
            kind,
            high_first,
        ) is Broken,
{
    lemma_struck_rest(bytes, at, high_first);
    lemma_data_step(struck(bytes, at + first_in(bytes, high_first)->0.next), kind, high_first);
}

/// The kind of data that counts behind the first attribute.
spec fn later_kind(first: First, kind: DataKind) -> DataKind {
    if first.kind == 1 {
        data_kind(first.value)
    } else {
        kind
    }
}

proof fn lemma_infos_step(bytes: Seq<u8>, kind: DataKind, high_first: bool)
    requires
        first_in(bytes, high_first) is Some,
    ensures
        infos_scan(bytes, kind, high_first) == ({
            let first = first_in(bytes, high_first)->0;
            let own = if first.kind == 2 {
                data_scan(first.value, kind, high_first).moved(4)
            } else {
                Scan::Clean
            };
            own.before(infos_scan(first.rest, later_kind(first, kind), high_first), first.next)
        }),
{
}

proof fn lemma_infos_struck(bytes: Seq<u8>, kind: DataKind, high_first: bool)
    requires
        infos_scan(bytes, kind, high_first) is Fault,
    ensures
        infos_scan(bytes, kind, high_first) matches Scan::Fault(at) && {
            &&& 0 <= at && at + 2 <= bytes.len()
            &&& infos_scan(struck(bytes, at), kind, high_first) is Broken
        },
    decreases bytes.len(),
{
    assert(first_in(bytes, high_first) is Some);
    let first = first_in(bytes, high_first)->0;
    let at = infos_scan(bytes, kind, high_first)->Fault_0;
    lemma_infos_step(bytes, kind, high_first);
    if first.kind == 2 && data_scan(first.value, kind, high_first) is Fault {
        lemma_data_struck(first.value, kind, high_first);
        lemma_infos_value_struck(bytes, at - 4, kind, high_first);
    } else {
        lemma_infos_struck(first.rest, later_kind(first, kind), high_first);
        lemma_infos_rest_struck(bytes, at - first.next, kind, high_first);
    }
}

proof fn lemma_infos_value_struck(bytes: Seq<u8>, at: int, kind: DataKind, high_first: bool)
    requires
        first_in(bytes, high_first) matches Some(first) && {
            &&& 0 <= at && at + 2 <= first.value.len()
            &&& first.kind == 2
            &&& data_scan(struck(first.value, at), kind, high_first) is Broken
        },
    ensures
        infos_scan(struck(bytes, at + 4), kind, high_first) is Broken,
{
    lemma_struck_value(bytes, at, high_first);
    lemma_infos_step(struck(bytes, at + 4), kind, high_first);
}

proof fn lemma_infos_rest_struck(bytes: Seq<u8>, at: int, kind: DataKind, high_first: bool)
    requires
        first_in(bytes, high_first) matches Some(first) && {
            &&& 0 <= at && at + 2 <= first.rest.len()
            &&& first.kind == 2 ==> data_scan(first.value, kind, high_first) is Clean
            &&& infos_scan(struck(first.rest, at), later_kind(first, kind), high_first) is Broken
        },
    ensures
        infos_scan(
            struck(bytes, at + first_in(bytes, high_first)->0.next),
            kind,
            high_first,
        ) is Broken,
{
    lemma_struck_rest(bytes, at, high_first);
    lemma_infos_step(struck(bytes, at + first_in(bytes, high_first)->0.next), kind, high_first);
}

proof fn lemma_fields_struck(bytes: Seq<u8>, high_first: bool)
    requires
        fields_scan(bytes, high_first) is Fault,
    ensures
        fields_scan(bytes, high_first) matches Scan::Fault(at) && {
            &&& 0 <= at && at + 2 <= bytes.len()
            &&& fields_scan(struck(bytes, at), high_first) is Broken
        },
    decreases bytes.len(),
{
    let first = first_in(bytes, high_first)->0;
    let at = fields_scan(bytes, high_first)->Fault_0;
    if first.kind == 18 && infos_scan(first.value, DataKind::Plain, high_first) is Fault {
        lemma_infos_struck(first.value, DataKind::Plain, high_first);
        lemma_struck_value(bytes, at - 4, high_first);
    } else {
        lemma_fields_struck(first.rest, high_first);
        lemma_struck_rest(bytes, at - first.next, high_first);
    }
}

/// With the length of the faulty attribute struck out there is no fault any more: the
/// list is broken there.
pub proof fn a_struck_message_has_no_fault(bytes: Seq<u8>, high_first: bool)
    requires
        link_scan(bytes, high_first) is Fault,
    ensures
        link_scan(bytes, high_first) matches Scan::Fault(at) && {
            &&& 16 <= at && at + 2 <= bytes.len()
            &&& link_scan(struck(bytes, at), high_first) is Broken
        },
    decreases bytes.len(),
{
    lemma_fields_struck(bytes.skip(16), high_first);
    let at = link_scan(bytes, high_first)->Fault_0;
    assert(struck(bytes, at).skip(16) =~= struck(bytes.skip(16), at - 16));
}

/// The kind and the length of the first attribute, and where the next one begins.
fn first(bytes: &[u8], order: &HostOrder) -> (found: Option<(u16, usize, usize)>)
    ensures
        match found {
            None => first_in(bytes@, order.is_high_first()) is None,
            Some((kind, length, next)) => {
                &&& 4 <= length <= next <= bytes@.len()
                &&& first_in(bytes@, order.is_high_first()) == Some(
                    First {
                        kind,
                        value: bytes@.subrange(4, length as int),
                        next: next as int,
                        rest: bytes@.skip(next as int),
                    },
                )
            },
        },
{
    if bytes.len() < 4 {
        return None;
    }
    let length: usize = u16_from(bytes, 0, order.high_first()) as usize;
    if length < 4 || length > bytes.len() {
        return None;
    }
    let kind: u16 = u16_from(bytes, 2, order.high_first()) % 0x4000;
    let full: usize = (length + 3) / 4 * 4;
    let next: usize = if full < bytes.len() {
        full
    } else {
        bytes.len()
    };
    Some((kind, length, next))
}

/// Whether some bytes are a name, with or without a zero at the end.
fn is_name(bytes: &[u8], name: &[u8]) -> (named: bool)
    requires
        name@.len() < usize::MAX,
    ensures
        named == names(bytes@, name@),
{
    let ended: bool = bytes.len() == name.len() + 1 && bytes[name.len()] == 0;
    if bytes.len() != name.len() && !ended {
        return false;
    }
    let mut i: usize = 0;
    while i < name.len()
        invariant
            i <= name@.len() <= bytes@.len(),
            forall|j: int| 0 <= j < i ==> bytes@[j] == name@[j],
        decreases name@.len() - i,
    {
        if bytes[i] != name[i] {
            assert(name@.push(0)[i as int] == name@[i as int]);
            return false;
        }
        i = i + 1;
    }
    proof {
        if ended {
            assert(bytes@ =~= name@.push(0));
        } else {
            assert(bytes@ =~= name@);
        }
    }
    true
}

/// What the data may hold of an interface whose kind has this name.
fn kind_named(bytes: &[u8]) -> (kind: DataKind)
    ensures
        kind == data_kind(bytes@),
{
    let bareudp: [u8; 7] = [98, 97, 114, 101, 117, 100, 112];
    let veth: [u8; 4] = [118, 101, 116, 104];
    let vxcan: [u8; 5] = [118, 120, 99, 97, 110];
    let netkit: [u8; 6] = [110, 101, 116, 107, 105, 116];
    assert(bareudp@ =~= seq![98u8, 97, 114, 101, 117, 100, 112]);
    assert(veth@ =~= seq![118u8, 101, 116, 104]);
    assert(vxcan@ =~= seq![118u8, 120, 99, 97, 110]);
    assert(netkit@ =~= seq![110u8, 101, 116, 107, 105, 116]);
    if is_name(bytes, bareudp.as_slice()) {
        DataKind::Port
    } else if is_name(bytes, veth.as_slice()) || is_name(bytes, vxcan.as_slice()) {
        DataKind::Peer
    } else if is_name(bytes, netkit.as_slice()) {
        DataKind::Peers
    } else {
        DataKind::Plain
    }
}

/// What comes of looking for the fault.
#[derive(Clone, Copy, Debug, PartialEq, Eq, Structural)]
pub enum Checked {
    Clean,
    Broken,
    Fault(usize),
}

impl View for Checked {
    type V = Scan;

    open spec fn view(&self) -> Scan {
        match *self {
            Checked::Clean => Scan::Clean,
            Checked::Broken => Scan::Broken,
            Checked::Fault(at) => Scan::Fault(at as int),
        }
    }
}

/// The same, counted from so many bytes before.
fn moved(found: Checked, by: usize) -> (moved: Checked)
    requires
        found matches Checked::Fault(at) ==> at + by <= usize::MAX,
    ensures
        moved@ == found@.moved(by as int),
{
    match found {
        Checked::Fault(at) => Checked::Fault(at + by),
        _ => found,
    }
}

/// Whether a fault is at a position in some bytes.
spec fn within(found: Checked, bytes: Seq<u8>) -> bool {
    found matches Checked::Fault(at) ==> at < bytes.len()
}

/// Looks for the fault in data of this kind.
fn check_data(bytes: &[u8], kind: DataKind, order: &HostOrder) -> (found: Checked)
    ensures
        found@ == data_scan(bytes@, kind, order.is_high_first()),
        within(found, bytes@),
    decreases bytes@.len(),
{
    if kind == DataKind::Plain {
        return Checked::Clean;
    }
    let mut at: usize = 0;
    assert(bytes@.skip(0) =~= bytes@);
    while at < bytes.len()
        invariant
            at <= bytes@.len(),
            data_scan(bytes@, kind, order.is_high_first()) == data_scan(bytes@.skip(at as int), kind, order.is_high_first()).moved(at as int),
            kind != DataKind::Plain,
        decreases bytes@.len() - at,
    {
        let left: &[u8] = vstd::slice::slice_subrange(bytes, at, bytes.len());
        assert(left@ =~= bytes@.skip(at as int));
        let (number, length, next): (u16, usize, usize) = match first(left, order) {
            None => {
                return Checked::Broken;
            },
            Some(found) => found,
        };
        let value: &[u8] = vstd::slice::slice_subrange(left, 4, length);
        match kind {
            DataKind::Port => {
                if number == 3 && value.len() != 2 {
                    return Checked::Fault(at);
                }
            },
            DataKind::Peer => {
                if number == 1 {
                    return moved(check_link(value, order), at + 4);
                }
                return Checked::Clean;
            },
            _ => {
                if number == 1 {
                    match check_link(value, order) {
                        Checked::Clean => {},
                        found => {
                            return moved(found, at + 4);
                        },
                    }
                }
            },
        }
        assert(left@.skip(next as int) =~= bytes@.skip(at + next));
        at = at + next;
    }
    assert(bytes@.skip(at as int).len() == 0);
    Checked::Clean
}

/// Looks for the fault in what is said of the kind of an interface.
fn check_infos(bytes: &[u8], order: &HostOrder) -> (found: Checked)
    ensures
        found@ == infos_scan(bytes@, DataKind::Plain, order.is_high_first()),
        within(found, bytes@),
    decreases bytes@.len(),
{
    let mut kind: DataKind = DataKind::Plain;
    let mut at: usize = 0;
    assert(bytes@.skip(0) =~= bytes@);
    while at < bytes.len()
        invariant
            at <= bytes@.len(),
            infos_scan(bytes@, DataKind::Plain, order.is_high_first()) == infos_scan(bytes@.skip(at as int), kind, order.is_high_first()).moved(at as int),
        decreases bytes@.len() - at,
    {
        let left: &[u8] = vstd::slice::slice_subrange(bytes, at, bytes.len());
        assert(left@ =~= bytes@.skip(at as int));
        let (number, length, next): (u16, usize, usize) = match first(left, order) {
            None => {
                return Checked::Broken;
            },
            Some(found) => found,
        };
        let value: &[u8] = vstd::slice::slice_subrange(left, 4, length);
        if number == 2 {
            match check_data(value, kind, order) {
                Checked::Clean => {},
                found => {
                    return moved(found, at + 4);
                },
            }
        }
        if number == 1 {
            kind = kind_named(value);
        }
        assert(left@.skip(next as int) =~= bytes@.skip(at + next));
        at = at + next;
    }
    assert(bytes@.skip(at as int).len() == 0);
    Checked::Clean
}

/// Looks for the fault in the attributes of an interface.
fn check_fields(bytes: &[u8], order: &HostOrder) -> (found: Checked)
    ensures
        found@ == fields_scan(bytes@, order.is_high_first()),
        within(found, bytes@),
    decreases bytes@.len(),
{
    let mut at: usize = 0;
    assert(bytes@.skip(0) =~= bytes@);
    while at < bytes.len()
        invariant
            at <= bytes@.len(),
            fields_scan(bytes@, order.is_high_first()) == fields_scan(bytes@.skip(at as int), order.is_high_first()).moved(at as int),
        decreases bytes@.len() - at,
    {
        let left: &[u8] = vstd::slice::slice_subrange(bytes, at, bytes.len());
        assert(left@ =~= bytes@.skip(at as int));
        let (number, length, next): (u16, usize, usize) = match first(left, order) {
            None => {
                return Checked::Broken;
            },
            Some(found) => found,
        };
        let value: &[u8] = vstd::slice::slice_subrange(left, 4, length);
        if number == 18 {
            match check_infos(value, order) {
                Checked::Clean => {},
                found => {
                    return moved(found, at + 4);
                },
            }
        }
        assert(left@.skip(next as int) =~= bytes@.skip(at + next));
        at = at + next;
    }
    assert(bytes@.skip(at as int).len() == 0);
    Checked::Clean
}

/// Looks for the fault in what some bytes say of an interface.
pub fn check_link(bytes: &[u8], order: &HostOrder) -> (found: Checked)
    ensures
        found@ == link_scan(bytes@, order.is_high_first()),
        found matches Checked::Fault(at) ==> at < bytes@.len(),
    decreases bytes@.len(),
{
    if bytes.len() < 16 {
        return Checked::Broken;
    }
    let fields: &[u8] = vstd::slice::slice_subrange(bytes, 16, bytes.len());
    assert(fields@ =~= bytes@.skip(16));
    moved(check_fields(fields, order), 16)
}

/// Whether an attribute of which the value is a wrong lowest port stands at a position: it
/// is whole, of the third kind, and its value is not of two bytes.
pub open spec fn wrong_port_at(bytes: Seq<u8>, at: int, high_first: bool) -> bool {
    let length = crate::wire::u16_at(bytes, at, high_first);
    &&& 0 <= at
    &&& 4 <= length
    &&& at + length <= bytes.len()
    &&& length != 6
    &&& crate::wire::u16_at(bytes, at + 2, high_first) % 0x4000 == 3
}

/// Where the fault is found there is a lowest port that is not of two bytes.
pub proof fn a_fault_is_a_wrong_lowest_port(bytes: Seq<u8>, high_first: bool)
    ensures
        link_scan(bytes, high_first) matches Scan::Fault(at) ==> 16 <= at && wrong_port_at(
            bytes,
            at,
            high_first,
        ),
    decreases bytes.len(),
{
    if link_scan(bytes, high_first) is Fault {
        let at = link_scan(bytes, high_first)->Fault_0;
        lemma_fields_wrong(bytes.skip(16), high_first);
        lemma_wrong_further(bytes, bytes.skip(16), at - 16, 16, high_first);
    }
}

proof fn lemma_wrong_further(
    bytes: Seq<u8>,
    part: Seq<u8>,
    at: int,
    by: int,
    high_first: bool,
)
    requires
        wrong_port_at(part, at, high_first),
        0 <= by,
        by + part.len() <= bytes.len(),
        forall|i: int| 0 <= i < part.len() ==> part[i] == bytes[#[trigger] (i + by)],
    ensures
        wrong_port_at(bytes, at + by, high_first),
{
    assert(part[at] == bytes[at + by]);
    assert(part[at + 1] == bytes[(at + 1) + by]);
    assert(part[at + 2] == bytes[(at + 2) + by]);
    assert(part[at + 3] == bytes[(at + 3) + by]);
}

proof fn lemma_wrong_inside(bytes: Seq<u8>, at: int, high_first: bool)
    requires
        first_in(bytes, high_first) is Some,
    ensures
        wrong_port_at(first_in(bytes, high_first)->0.value, at, high_first) ==> wrong_port_at(
            bytes,
            at + 4,
            high_first,
        ),
        wrong_port_at(first_in(bytes, high_first)->0.rest, at, high_first) ==> wrong_port_at(
            bytes,
            at + first_in(bytes, high_first)->0.next,
            high_first,
        ),
{
    let first = first_in(bytes, high_first)->0;
    if wrong_port_at(first.value, at, high_first) {
        lemma_wrong_further(bytes, first.value, at, 4, high_first);
    }
    if wrong_port_at(first.rest, at, high_first) {
        lemma_wrong_further(bytes, first.rest, at, first.next, high_first);
    }
}

proof fn lemma_fields_wrong(bytes: Seq<u8>, high_first: bool)
    requires
        fields_scan(bytes, high_first) is Fault,
    ensures
        wrong_port_at(bytes, fields_scan(bytes, high_first)->Fault_0, high_first),
    decreases bytes.len(),
{
    let first = first_in(bytes, high_first)->0;
    let at = fields_scan(bytes, high_first)->Fault_0;
    if first.kind == 18 && infos_scan(first.value, DataKind::Plain, high_first) is Fault {
        lemma_infos_wrong(first.value, DataKind::Plain, high_first);
        lemma_wrong_inside(bytes, at - 4, high_first);
    } else {
        lemma_fields_wrong(first.rest, high_first);
        lemma_wrong_inside(bytes, at - first.next, high_first);
    }
}

proof fn lemma_infos_wrong(bytes: Seq<u8>, kind: DataKind, high_first: bool)
    requires
        infos_scan(bytes, kind, high_first) is Fault,
    ensures
        wrong_port_at(bytes, infos_scan(bytes, kind, high_first)->Fault_0, high_first),
    decreases bytes.len(),
{
    assert(first_in(bytes, high_first) is Some);
    let first = first_in(bytes, high_first)->0;
    let at = infos_scan(bytes, kind, high_first)->Fault_0;
    lemma_infos_step(bytes, kind, high_first);
    if first.kind == 2 && data_scan(first.value, kind, high_first) is Fault {
        lemma_data_wrong(first.value, kind, high_first);
        lemma_wrong_inside(bytes, at - 4, high_first);
    } else {
        lemma_infos_wrong(first.rest, later_kind(first, kind), high_first);
        lemma_wrong_inside(bytes, at - first.next, high_first);
    }
}

proof fn lemma_data_wrong(bytes: Seq<u8>, kind: DataKind, high_first: bool)
    requires
        data_scan(bytes, kind, high_first) is Fault,
    ensures
        wrong_port_at(bytes, data_scan(bytes, kind, high_first)->Fault_0, high_first),
    decreases bytes.len(),
{
    assert(kind != DataKind::Plain && first_in(bytes, high_first) is Some);
    let first = first_in(bytes, high_first)->0;
    let at = data_scan(bytes, kind, high_first)->Fault_0;
    lemma_data_step(bytes, kind, high_first);
    if kind == DataKind::Port && first.kind == 3 && first.value.len() != 2 {
        assert(at == 0);
        assert(first.value.len() == crate::wire::u16_at(bytes, 0, high_first) - 4);
    } else if kind != DataKind::Port && first.kind == 1 && link_scan(first.value, high_first)
        is Fault {
        a_fault_is_a_wrong_lowest_port(first.value, high_first);
        lemma_wrong_inside(bytes, at - 4, high_first);
    } else {
        lemma_data_wrong(first.rest, kind, high_first);
        lemma_wrong_inside(bytes, at - first.next, high_first);
    }
}

/// The bytes of an attribute: its length, its kind, its value, and zeros up to a multiple
/// of four bytes.
pub open spec fn attribute_bytes(kind: u16, value: Seq<u8>, high_first: bool) -> Seq<u8> {
    crate::wire::u16_bytes((value.len() + 4) as u16, high_first) + crate::wire::u16_bytes(
        kind,
        high_first,
    ) + crate::wire::padded(value)
}

/// The bytes of a list of attributes, each a kind and a value.
pub open spec fn list_bytes(attributes: Seq<(u16, Seq<u8>)>, high_first: bool) -> Seq<u8>
    decreases attributes.len(),
{
    if attributes.len() == 0 {
        seq![]
    } else {
        attribute_bytes(attributes[0].0, attributes[0].1, high_first) + list_bytes(
            attributes.skip(1),
            high_first,
        )
    }
}

/// Whether attributes can be written: a kind leaves room for the marks, and a length is a
/// number of two bytes.
pub open spec fn can_be_listed(attributes: Seq<(u16, Seq<u8>)>) -> bool {
    forall|i: int|
        0 <= i < attributes.len() ==> (#[trigger] attributes[i]).0 < 0x4000
            && attributes[i].1.len() + 4 <= u16::MAX
}

/// Reading the first attribute of a list gives back the one that was written first, and
/// the others are behind it.
pub proof fn a_written_attribute_is_read_back(
    attributes: Seq<(u16, Seq<u8>)>,
    high_first: bool,
)
    requires
        can_be_listed(attributes),
        attributes.len() > 0,
    ensures
        first_in(list_bytes(attributes, high_first), high_first) matches Some(first) && {
            &&& first.kind == attributes[0].0
            &&& first.value == attributes[0].1
            &&& first.rest == list_bytes(attributes.skip(1), high_first)
        },
{
    let (kind, value) = attributes[0];
    let bytes = list_bytes(attributes, high_first);
    let one = attribute_bytes(kind, value, high_first);
    let others = list_bytes(attributes.skip(1), high_first);
    let length = (value.len() + 4) as u16;
    let size = crate::wire::u16_bytes(length, high_first);
    let mark = crate::wire::u16_bytes(kind, high_first);
    assert(size.len() == 2 && mark.len() == 2);
    assert(bytes[0] == size[0] && bytes[1] == size[1]);
    assert(bytes[2] == mark[0] && bytes[3] == mark[1]);
    assert(crate::wire::u16_at(bytes, 0, high_first) == length);
    assert(crate::wire::u16_at(bytes, 2, high_first) == kind);
    assert(one.len() == padded(length as int));
    assert(bytes.subrange(4, length as int) =~= value);
    assert(bytes.skip(one.len() as int) =~= others);
}

/// In the data of an interface that may hold a lowest port, the fault is there exactly if
/// one of the attributes of the third kind is not of two bytes, whatever else is there.
pub proof fn a_wrong_port_is_found_among_others(
    attributes: Seq<(u16, Seq<u8>)>,
    high_first: bool,
)
    requires
        can_be_listed(attributes),
    ensures
        !(data_scan(list_bytes(attributes, high_first), DataKind::Port, high_first) is Broken),
        data_scan(list_bytes(attributes, high_first), DataKind::Port, high_first) is Fault
            <==> exists|i: int|
            0 <= i < attributes.len() && (#[trigger] attributes[i]).0 == 3 && attributes[i].1.len()
                != 2,
    decreases attributes.len(),
{
    let bytes = list_bytes(attributes, high_first);
    if attributes.len() > 0 {
        let rest = attributes.skip(1);
        assert forall|i: int| 0 <= i < rest.len() implies (#[trigger] rest[i]).0 < 0x4000
            && rest[i].1.len() + 4 <= u16::MAX by {
            assert(rest[i] == attributes[i + 1]);
        }
        a_written_attribute_is_read_back(attributes, high_first);
        a_wrong_port_is_found_among_others(rest, high_first);
        lemma_data_step(bytes, DataKind::Port, high_first);
        if exists|i: int|
            0 <= i < attributes.len() && (#[trigger] attributes[i]).0 == 3 && attributes[i].1.len()
                != 2 {
            let i = choose|i: int|
                0 <= i < attributes.len() && (#[trigger] attributes[i]).0 == 3
                    && attributes[i].1.len() != 2;
            if i > 0 {
                assert(rest[i - 1] == attributes[i]);
            }
        }
        if exists|i: int|
            0 <= i < rest.len() && (#[trigger] rest[i]).0 == 3 && rest[i].1.len() != 2 {
            let i = choose|i: int|
                0 <= i < rest.len() && (#[trigger] rest[i]).0 == 3 && rest[i].1.len() != 2;
            assert(rest[i] == attributes[i + 1]);
        }
    }
}

proof fn lemma_later_listed(attributes: Seq<(u16, Seq<u8>)>)
    requires
        can_be_listed(attributes),
        attributes.len() > 0,
    ensures
        can_be_listed(attributes.skip(1)),
{
    let rest = attributes.skip(1);
    assert forall|i: int| 0 <= i < rest.len() implies (#[trigger] rest[i]).0 < 0x4000
        && rest[i].1.len() + 4 <= u16::MAX by {
        assert(rest[i] == attributes[i + 1]);
    }
}

#[verifier::opaque]
spec fn is_faulty(bytes: Seq<u8>, high_first: bool) -> bool {
    link_scan(bytes, high_first) is Fault
}

#[verifier::opaque]
spec fn has_faulty(bytes: Seq<u8>, kind: DataKind, high_first: bool) -> bool {
    data_scan(bytes, kind, high_first) is Fault
}

proof fn lemma_data_later(bytes: Seq<u8>, high_first: bool)
    requires
        first_in(bytes, high_first) matches Some(first) && first.kind != 1 && has_faulty(
            first.rest,
            DataKind::Peers,
            high_first,
        ),
    ensures
        has_faulty(bytes, DataKind::Peers, high_first),
{
    reveal(has_faulty);
    lemma_data_step(bytes, DataKind::Peers, high_first);
}

proof fn lemma_data_first(bytes: Seq<u8>, kind: DataKind, high_first: bool)
    requires
        kind == DataKind::Peers || kind == DataKind::Peer,
        first_in(bytes, high_first) matches Some(first) && first.kind == 1 && is_faulty(
            first.value,
            high_first,
        ),
    ensures
        has_faulty(bytes, kind, high_first),
{
    reveal(is_faulty);
    reveal(has_faulty);
    lemma_data_step(bytes, kind, high_first);
}

proof fn lemma_data_faulty(
    attributes: Seq<(u16, Seq<u8>)>,
    i: int,
    kind: DataKind,
    high_first: bool,
)
    requires
        can_be_listed(attributes),
        0 <= i < attributes.len(),
        attributes[i].0 == 1,
        forall|k: int| 0 <= k < i ==> (#[trigger] attributes[k]).0 != 1,
        kind == DataKind::Peers || (kind == DataKind::Peer && i == 0),
        is_faulty(attributes[i].1, high_first),
    ensures
        has_faulty(list_bytes(attributes, high_first), kind, high_first),
    decreases attributes.len(),
{
    let bytes = list_bytes(attributes, high_first);
    a_written_attribute_is_read_back(attributes, high_first);
    if i > 0 {
        let rest = attributes.skip(1);
        lemma_later_listed(attributes);
        assert forall|k: int| 0 <= k < i - 1 implies (#[trigger] rest[k]).0 != 1 by {
            assert(rest[k] == attributes[k + 1]);
        }
        assert(rest[i - 1] == attributes[i]);
        assert(attributes[0].0 != 1);
        lemma_data_faulty(rest, i - 1, kind, high_first);
        lemma_data_later(bytes, high_first);
    } else {
        lemma_data_first(bytes, kind, high_first);
    }
}

#[verifier::opaque]
spec fn tells_faulty(bytes: Seq<u8>, kind: DataKind, high_first: bool) -> bool {
    infos_scan(bytes, kind, high_first) is Fault
}

proof fn lemma_infos_later(bytes: Seq<u8>, kind: DataKind, high_first: bool)
    requires
        first_in(bytes, high_first) matches Some(first) && first.kind != 2 && tells_faulty(
            first.rest,
            later_kind(first, kind),
            high_first,
        ),
    ensures
        tells_faulty(bytes, kind, high_first),
{
    reveal(tells_faulty);
    lemma_infos_step(bytes, kind, high_first);
}

proof fn lemma_infos_first(bytes: Seq<u8>, kind: DataKind, high_first: bool)
    requires
        first_in(bytes, high_first) matches Some(first) && first.kind == 2 && has_faulty(
            first.value,
            kind,
            high_first,
        ),
    ensures
        tells_faulty(bytes, kind, high_first),
{
    reveal(has_faulty);
    reveal(tells_faulty);
    lemma_infos_step(bytes, kind, high_first);
}

proof fn lemma_infos_unnamed(
    attributes: Seq<(u16, Seq<u8>)>,
    i: int,
    kind: DataKind,
    high_first: bool,
)
    requires
        can_be_listed(attributes),
        0 <= i < attributes.len(),
        forall|k: int|
            0 <= k < i ==> (#[trigger] attributes[k]).0 != 1 && attributes[k].0 != 2,
        attributes[i].0 == 2,
        has_faulty(attributes[i].1, kind, high_first),
    ensures
        tells_faulty(list_bytes(attributes, high_first), kind, high_first),
    decreases attributes.len(),
{
    let bytes = list_bytes(attributes, high_first);
    a_written_attribute_is_read_back(attributes, high_first);
    if i > 0 {
        let rest = attributes.skip(1);
        lemma_later_listed(attributes);
        assert forall|k: int| 0 <= k < i - 1 implies (#[trigger] rest[k]).0 != 1 && rest[k].0
            != 2 by {
            assert(rest[k] == attributes[k + 1]);
        }
        assert(rest[i - 1] == attributes[i]);
        assert(attributes[0].0 != 1 && attributes[0].0 != 2);
        lemma_infos_unnamed(rest, i - 1, kind, high_first);
        lemma_infos_later(bytes, kind, high_first);
    } else {
        lemma_infos_first(bytes, kind, high_first);
    }
}

proof fn lemma_infos_named(
    attributes: Seq<(u16, Seq<u8>)>,
    named: int,
    i: int,
    kind: DataKind,
    before: DataKind,
    high_first: bool,
)
    requires
        can_be_listed(attributes),
        0 <= named < i < attributes.len(),
        attributes[named].0 == 1 && is_told(attributes[named].1, kind),
        forall|k: int| named < k < i ==> (#[trigger] attributes[k]).0 != 1,
        forall|k: int| 0 <= k < i ==> (#[trigger] attributes[k]).0 != 2,
        attributes[i].0 == 2,
        has_faulty(attributes[i].1, kind, high_first),
    ensures
        tells_faulty(list_bytes(attributes, high_first), before, high_first),
    decreases attributes.len(),
{
    let bytes = list_bytes(attributes, high_first);
    let rest = attributes.skip(1);
    let next = kind_behind(attributes[0], before);
    a_written_attribute_is_read_back(attributes, high_first);
    lemma_later_listed(attributes);
    assert forall|k: int| 0 <= k < i - 1 implies (#[trigger] rest[k]).0 != 2 by {
        assert(rest[k] == attributes[k + 1]);
    }
    assert forall|k: int| named - 1 < k < i - 1 implies (#[trigger] rest[k]).0 != 1 by {
        assert(rest[k] == attributes[k + 1]);
    }
    assert(rest[i - 1] == attributes[i]);
    assert(attributes[0].0 != 2);
    if named > 0 {
        assert(rest[named - 1] == attributes[named]);
        lemma_infos_named(rest, named - 1, i - 1, kind, next, high_first);
    } else {
        lemma_kind_behind(attributes[0], kind, before);
        lemma_infos_unnamed(rest, i - 1, kind, high_first);
    }
    lemma_infos_further(bytes, attributes[0], before, high_first);
}

#[verifier::opaque]
spec fn is_told(name: Seq<u8>, kind: DataKind) -> bool {
    data_kind(name) == kind
}

#[verifier::opaque]
spec fn kind_behind(attribute: (u16, Seq<u8>), before: DataKind) -> DataKind {
    if attribute.0 == 1 {
        data_kind(attribute.1)
    } else {
        before
    }
}

proof fn lemma_kind_behind(attribute: (u16, Seq<u8>), kind: DataKind, before: DataKind)
    requires
        attribute.0 == 1,
        is_told(attribute.1, kind),
    ensures
        kind_behind(attribute, before) == kind,
{
    reveal(is_told);
    reveal(kind_behind);
}

proof fn lemma_infos_further(
    bytes: Seq<u8>,
    attribute: (u16, Seq<u8>),
    kind: DataKind,
    high_first: bool,
)
    requires
        first_in(bytes, high_first) matches Some(first) && first.kind == attribute.0 && first.value
            == attribute.1 && first.kind != 2 && tells_faulty(
            first.rest,
            kind_behind(attribute, kind),
            high_first,
        ),
    ensures
        tells_faulty(bytes, kind, high_first),
{
    reveal(kind_behind);
    lemma_infos_later(bytes, kind, high_first);
}

/// What data say of another interface is looked at: in those of a "veth" or a "vxcan" the
/// first attribute, and in those of a "netkit" the first that says something of one,
/// whatever stands before it.
pub proof fn another_interface_is_looked_at(
    attributes: Seq<(u16, Seq<u8>)>,
    i: int,
    kind: DataKind,
    high_first: bool,
)
    requires
        can_be_listed(attributes),
        0 <= i < attributes.len(),
        attributes[i].0 == 1,
        forall|k: int| 0 <= k < i ==> (#[trigger] attributes[k]).0 != 1,
        kind == DataKind::Peers || (kind == DataKind::Peer && i == 0),
        link_scan(attributes[i].1, high_first) is Fault,
    ensures
        data_scan(list_bytes(attributes, high_first), kind, high_first) is Fault,
{
    reveal(is_faulty);
    reveal(has_faulty);
    lemma_data_faulty(attributes, i, kind, high_first);
}

/// What the data of an interface may hold goes by the name of its kind, with or without a
/// zero at the end.
pub proof fn data_go_by_the_name_of_the_kind(name: Seq<u8>)
    ensures
        data_kind(name) == DataKind::Port <==> {
            ||| name == seq![98u8, 97, 114, 101, 117, 100, 112]
            ||| name == seq![98u8, 97, 114, 101, 117, 100, 112, 0]
        },
        data_kind(name) == DataKind::Peer <==> {
            ||| name == seq![118u8, 101, 116, 104]
            ||| name == seq![118u8, 101, 116, 104, 0]
            ||| name == seq![118u8, 120, 99, 97, 110]
            ||| name == seq![118u8, 120, 99, 97, 110, 0]
        },
        data_kind(name) == DataKind::Peers <==> {
            ||| name == seq![110u8, 101, 116, 107, 105, 116]
            ||| name == seq![110u8, 101, 116, 107, 105, 116, 0]
        },
{
    let port = seq![98u8, 97, 114, 101, 117, 100, 112];
    let veth = seq![118u8, 101, 116, 104];
    let vxcan = seq![118u8, 120, 99, 97, 110];
    let netkit = seq![110u8, 101, 116, 107, 105, 116];
    assert(port.push(0) =~= seq![98u8, 97, 114, 101, 117, 100, 112, 0]);
    assert(veth.push(0) =~= seq![118u8, 101, 116, 104, 0]);
    assert(vxcan.push(0) =~= seq![118u8, 120, 99, 97, 110, 0]);
    assert(netkit.push(0) =~= seq![110u8, 101, 116, 107, 105, 116, 0]);
    assert(port[0] == 98 && veth[0] == 118 && vxcan[0] == 118 && netkit[0] == 110);
    assert(port.push(0)[0] == 98 && veth.push(0)[0] == 118 && vxcan.push(0)[0] == 118
        && netkit.push(0)[0] == 110);
}

/// Data count by the last name before them, whatever else stands between or before; and by
/// what is known before all if there is no name.
pub proof fn data_count_by_the_name_before_them(
    attributes: Seq<(u16, Seq<u8>)>,
    named: int,
    i: int,
    kind: DataKind,
    before: DataKind,
    high_first: bool,
)
    requires
        can_be_listed(attributes),
        -1 <= named < i < attributes.len(),
        named >= 0 ==> attributes[named].0 == 1 && data_kind(attributes[named].1) == kind,
        forall|k: int| named < k < i ==> (#[trigger] attributes[k]).0 != 1,
        forall|k: int| 0 <= k < i ==> (#[trigger] attributes[k]).0 != 2,
        attributes[i].0 == 2,
        data_scan(attributes[i].1, kind, high_first) is Fault,
        named >= 0 || before == kind,
    ensures
        infos_scan(list_bytes(attributes, high_first), before, high_first) is Fault,
{
    reveal(has_faulty);
    reveal(tells_faulty);
    reveal(is_told);
    if named >= 0 {
        lemma_infos_named(attributes, named, i, kind, before, high_first);
    } else {
        lemma_infos_unnamed(attributes, i, kind, high_first);
    }
}

/// What is said of the kind of an interface is looked at, whatever stands before it.
pub proof fn the_kind_of_an_interface_is_looked_at(
    head: Seq<u8>,
    attributes: Seq<(u16, Seq<u8>)>,
    i: int,
    high_first: bool,
)
    requires
        head.len() == 16,
        can_be_listed(attributes),
        0 <= i < attributes.len(),
        attributes[i].0 == 18,
        forall|k: int| 0 <= k < i ==> (#[trigger] attributes[k]).0 != 18,
        infos_scan(attributes[i].1, DataKind::Plain, high_first) is Fault,
    ensures
        link_scan(head + list_bytes(attributes, high_first), high_first) is Fault,
{
    lemma_fields_found(attributes, i, high_first);
    assert((head + list_bytes(attributes, high_first)).skip(16) =~= list_bytes(
        attributes,
        high_first,
    ));
}

proof fn lemma_fields_found(attributes: Seq<(u16, Seq<u8>)>, i: int, high_first: bool)
    requires
        can_be_listed(attributes),
        0 <= i < attributes.len(),
        attributes[i].0 == 18,
        forall|k: int| 0 <= k < i ==> (#[trigger] attributes[k]).0 != 18,
        infos_scan(attributes[i].1, DataKind::Plain, high_first) is Fault,
    ensures
        fields_scan(list_bytes(attributes, high_first), high_first) is Fault,
    decreases attributes.len(),
{
    a_written_attribute_is_read_back(attributes, high_first);
    if i > 0 {
        let rest = attributes.skip(1);
        assert(forall|k: int| 0 <= k < rest.len() ==> rest[k] == attributes[k + 1]);
        lemma_fields_found(rest, i - 1, high_first);
    }
}

/// An interface of the kind "bareudp" with a lowest port that is not of two bytes is found
/// to be faulty, whatever else is said of it before and behind.
pub proof fn a_wrong_lowest_port_is_found(
    head: Seq<u8>,
    fields: Seq<(u16, Seq<u8>)>,
    f: int,
    infos: Seq<(u16, Seq<u8>)>,
    named: int,
    i: int,
    data: Seq<(u16, Seq<u8>)>,
    d: int,
    high_first: bool,
)
    requires
        head.len() == 16,
        can_be_listed(fields) && can_be_listed(infos) && can_be_listed(data),
        0 <= f < fields.len(),
        fields[f] == (18u16, list_bytes(infos, high_first)),
        forall|k: int| 0 <= k < f ==> (#[trigger] fields[k]).0 != 18,
        0 <= named < i < infos.len(),
        infos[named].0 == 1,
        infos[named].1 == seq![98u8, 97, 114, 101, 117, 100, 112, 0] || infos[named].1
            == seq![98u8, 97, 114, 101, 117, 100, 112],
        infos[i] == (2u16, list_bytes(data, high_first)),
        forall|k: int| named < k < i ==> (#[trigger] infos[k]).0 != 1,
        forall|k: int| 0 <= k < i ==> (#[trigger] infos[k]).0 != 2,
        0 <= d < data.len(),
        data[d].0 == 3,
        data[d].1.len() != 2,
    ensures
        link_scan(head + list_bytes(fields, high_first), high_first) is Fault,
{
    data_go_by_the_name_of_the_kind(infos[named].1);
    a_wrong_port_is_found_among_others(data, high_first);
    data_count_by_the_name_before_them(
        infos,
        named,
        i,
        DataKind::Port,
        DataKind::Plain,
        high_first,
    );
    the_kind_of_an_interface_is_looked_at(head, fields, f, high_first);
}

} // verus!

//! What holds of the operations, whatever they are called with: how a result relates
//! to what was asked for, and the results of calls to each other.

use vstd::prelude::*;

use std::collections::BTreeSet;

use crate::config::{Action, Arguments, Config, FileOutcome, LogLevel};
use crate::error::{Error, ErrorKind};
use crate::link::{LinkKind, ObservedLink, ObservedView, StackRelationship, Topology};
use crate::mib::{Mib, SearchRange, Value, VarBind};
use crate::monitor::{
    Acquisition, AcquisitionError, Attempt, CycleEnd, EventBatch, Failure, Inventory, State, TableChange, TableReader, Task,
    WaitOutcome,
};
use crate::netlink::{
    Body, BodyView, Datagram, DatagramIo, Dump, Exchange, HostOrder, LinkFieldView, LinkRecord,
    Message, NetlinkSource, Ready, Received, Turn,
};
use crate::notify::Address;
use crate::oid::Oid;
use crate::pairs::Pair;
use crate::supervisor::Backoff;
use crate::time::Span;

verus! {

/// An inventory is accepted exactly if each link has an index and a name that no
/// other one has, and what each refers to is there; and what is wrong with one that
/// is refused is its data.
pub proof fn an_inventory_is_accepted_exactly_if_it_is_consistent(
    links: Vec<ObservedLink>,
    made: Result<Topology, Error>,
)
    requires
        call_ensures(Topology::from_observed, (links,), made),
    ensures
        made is Ok <==> {
            &&& forall|i: int|
                0 <= i < links@.len() ==> 1 <= (#[trigger] links@[i]).index <= 2147483647
                    && links@[i].name@.len() > 0
            &&& forall|i: int, j: int|
                #![trigger links@[i], links@[j]]
                0 <= i < j < links@.len() ==> links@[i].index != links@[j].index && links@[i].name@
                    != links@[j].name@
            &&& forall|i: int|
                0 <= i < links@.len() ==> #[trigger] crate::link::refers_well(links@, i)
        },
        made matches Err(error) ==> error@.kind == ErrorKind::InvalidData,
{
    crate::link::links_are_accepted_exactly_if_they_are_consistent(links@);
    assert forall|i: int| 0 <= i < links@.len() implies crate::link::named_and_numbered(
        #[trigger] links@[i],
    ) == (1 <= links@[i].index <= 2147483647 && links@[i].name@.len() > 0) by {}
}

/// The interfaces of a topology are those of its links.
pub proof fn a_topology_has_the_interfaces_of_its_links(
    links: Vec<ObservedLink>,
    topology: Topology,
    interfaces: &BTreeSet<u32>,
    index: u32,
)
    requires
        call_ensures(Topology::from_observed, (links,), Ok(topology)),
        call_ensures(Topology::interfaces, (&topology,), interfaces),
    ensures
        interfaces@.contains(index) <==> exists|i: int|
            0 <= i < links@.len() && (#[trigger] links@[i]).index == index,
{
    crate::link::an_index_is_known_exactly_if_a_link_has_it(links@, index);
}

/// A relationship is in a topology exactly if a link says so: a member of a bond or a
/// bridge; a VLAN, a macvlan, an ipvlan or a macvtap of its lower link; or a VXLAN of
/// the link that it goes through.
pub proof fn a_topology_has_the_relationships_that_its_links_say(
    links: Vec<ObservedLink>,
    topology: Topology,
    relationships: &Vec<StackRelationship>,
    higher: u32,
    lower: u32,
)
    requires
        call_ensures(Topology::from_observed, (links,), Ok(topology)),
        call_ensures(Topology::relationships, (&topology,), relationships),
    ensures
        relationships@.contains(StackRelationship { higher, lower }) <==> exists|i: int|
            0 <= i < links@.len() && {
                let link = #[trigger] links@[i];
                ||| link.index == lower && link.controller == Some(higher) && exists|j: int|
                    0 <= j < links@.len() && (#[trigger] links@[j]).index == higher && (
                    links@[j].kind == LinkKind::Bond || links@[j].kind == LinkKind::Bridge)
                ||| link.index == higher && link.lower == Some(lower) && (link.kind
                    == LinkKind::Vlan || link.kind == LinkKind::MacVlan || link.kind
                    == LinkKind::IpVlan || link.kind == LinkKind::MacVtap)
                ||| link.index == higher && link.vxlan_lower == Some(lower) && link.kind
                    == LinkKind::Vxlan && link.lower_netnsid is None && exists|j: int|
                    0 <= j < links@.len() && (#[trigger] links@[j]).index == lower
            },
        forall|i: int, j: int|
            #![trigger relationships@[i], relationships@[j]]
            0 <= i < j < relationships@.len() ==> relationships@[i].higher
                < relationships@[j].higher || (relationships@[i].higher == relationships@[j].higher
                && relationships@[i].lower < relationships@[j].lower),
{
    let all = links@;
    let pair: Pair = (higher, lower);
    let pairs = relationships@.map_values(|r: StackRelationship| r.pair());
    assert(pairs == topology.pairs());
    assert(relationships@.contains(StackRelationship { higher, lower }) <==> pairs.contains(pair))
        by {
        if relationships@.contains(StackRelationship { higher, lower }) {
            let k = choose|k: int|
                0 <= k < relationships@.len() && relationships@[k] == (StackRelationship {
                    higher,
                    lower,
                });
            assert(pairs[k] == pair);
        }
        if pairs.contains(pair) {
            let k = choose|k: int| 0 <= k < pairs.len() && pairs[k] == pair;
            assert(relationships@[k] == (StackRelationship { higher, lower }));
        }
    }
    assert(pairs.contains(pair) <==> pairs.to_set().contains(pair));
    assert(pairs.contains(pair) <==> crate::link::stacked(all, all.len() as int, pair));
    if crate::link::stacked(all, all.len() as int, pair) {
        crate::link::nothing_is_stacked_unless_a_link_says_so(all, pair);
        let i = choose|i: int| 0 <= i < all.len() && #[trigger] crate::link::says(all, i, pair);
        assert(all[i] == all[i]);
    }
    assert forall|i: int| 0 <= i < all.len() && crate::link::says(
        all,
        i,
        pair,
    ) implies #[trigger] all[i] == all[i] && crate::link::stacked(
        all,
        all.len() as int,
        pair,
    ) by {
        if all[i].index == lower && all[i].controller == Some(higher) && exists|j: int|
            0 <= j < all.len() && (#[trigger] all[j]).index == higher && (all[j].kind
                == LinkKind::Bond || all[j].kind == LinkKind::Bridge) {
            let j = choose|j: int|
                0 <= j < all.len() && (#[trigger] all[j]).index == higher && (all[j].kind
                    == LinkKind::Bond || all[j].kind == LinkKind::Bridge);
            crate::link::a_bond_or_bridge_is_on_top_of_its_members(all, i, j);
        } else if all[i].kind == LinkKind::Vxlan {
            let j = choose|j: int| 0 <= j < all.len() && (#[trigger] all[j]).index == lower;
            crate::link::a_vxlan_is_on_top_of_its_underlay(all, i, j);
        } else {
            crate::link::a_link_with_a_lower_one_is_on_top_of_it(all, i, lower);
        }
    }
    assert forall|i: int, j: int|
        #![trigger relationships@[i], relationships@[j]]
        0 <= i < j < relationships@.len() implies relationships@[i].higher
        < relationships@[j].higher || (relationships@[i].higher == relationships@[j].higher
        && relationships@[i].lower < relationships@[j].lower) by {
        assert(crate::pairs::pair_lt(pairs[i], pairs[j]));
    }
}

/// The table of some rows has these rows and no other, each once and in order.
pub proof fn a_table_has_the_rows_that_it_is_made_of(rows: Vec<Pair>, mib: Mib, row: Pair)
    requires
        call_ensures(Mib::new, (rows,), mib),
    ensures
        mib.rows().contains(row) <==> rows@.contains(row),
        forall|i: int, j: int|
            #![trigger mib.rows()[i], mib.rows()[j]]
            0 <= i < j < mib.rows().len() ==> mib.rows()[i].0 < mib.rows()[j].0 || (mib.rows()[i].0
                == mib.rows()[j].0 && mib.rows()[i].1 < mib.rows()[j].1),
{
    assert(mib.rows().to_set().contains(row) <==> rows@.to_set().contains(row));
    assert forall|i: int, j: int|
        #![trigger mib.rows()[i], mib.rows()[j]]
        0 <= i < j < mib.rows().len() implies mib.rows()[i].0 < mib.rows()[j].0 || (
    mib.rows()[i].0 == mib.rows()[j].0 && mib.rows()[i].1 < mib.rows()[j].1) by {
        assert(crate::pairs::pair_lt(mib.rows()[i], mib.rows()[j]));
    }
}

/// A row without a zero is in the table of a topology exactly if it is a relationship;
/// a row with a zero exactly if the other index is that of an interface that has no
/// neighbour on that side.
pub proof fn a_table_has_a_zero_exactly_where_a_neighbour_is_missing(
    topology: Topology,
    mib: Mib,
    index: u32,
    row: Pair,
)
    requires
        call_ensures(Mib::from_topology, (&topology,), mib),
        !topology.indexes().contains(0),
        forall|p: Pair| #[trigger] topology.pairs().contains(p) ==> p.0 != 0 && p.1 != 0,
        index != 0,
        row.0 != 0 && row.1 != 0,
    ensures
        mib.rows().contains(row) <==> topology.pairs().contains(row),
        mib.rows().contains((0, index)) <==> topology.indexes().contains(index) && forall|p: Pair|
            #[trigger] topology.pairs().contains(p) ==> p.1 != index,
        mib.rows().contains((index, 0)) <==> topology.indexes().contains(index) && forall|p: Pair|
            #[trigger] topology.pairs().contains(p) ==> p.0 != index,
        !mib.rows().contains((0, 0)),
{
    let indexes = topology.indexes();
    let pairs = topology.pairs();
    assert(mib.rows().contains((0u32, index)) <==> crate::mib::is_row(
        indexes,
        pairs,
        (0u32, index),
    ));
    assert(mib.rows().contains((index, 0u32)) <==> crate::mib::is_row(
        indexes,
        pairs,
        (index, 0u32),
    ));
    assert(mib.rows().contains(row) <==> crate::mib::is_row(indexes, pairs, row));
    assert(mib.rows().contains((0u32, 0u32)) <==> crate::mib::is_row(
        indexes,
        pairs,
        (0u32, 0u32),
    ));
}

/// An identifier stands before another one if they agree up to a position, and there
/// it has ended or has the lower component; and only then.
pub proof fn identifiers_are_ordered_by_the_first_difference(
    a: Vec<u32>,
    b: Vec<u32>,
    before: bool,
    k: int,
)
    requires
        call_ensures(crate::oid::is_before, (&a, &b), before),
        0 <= k <= a@.len(),
        k <= b@.len(),
        forall|i: int| 0 <= i < k ==> a@[i] == b@[i],
    ensures
        k == a@.len() && k < b@.len() ==> before,
        k == b@.len() ==> !before,
        k < a@.len() && k < b@.len() && a@[k] < b@[k] ==> before,
        k < a@.len() && k < b@.len() && a@[k] > b@[k] ==> !before,
{
    assert(a@.take(k) =~= b@.take(k));
    if k < b@.len() && (k == a@.len() || a@[k] < b@[k]) {
        assert(crate::oid::lower_from(a@, b@, k));
    } else if k < a@.len() && (k == b@.len() || a@[k] > b@[k]) {
        assert(crate::oid::lower_from(b@, a@, k));
        if a@ != b@ {
            crate::oid::oid_order_is_total(a@, b@);
        }
    } else if k == a@.len() && k == b@.len() {
        assert(a@ =~= b@);
        crate::oid::oid_order_is_irreflexive(a@);
    }
}

/// The identifier of a row, written out.
pub open spec fn full_name(row: Pair) -> Seq<u32> {
    seq![1u32, 3, 6, 1, 2, 1, 31, 1, 2, 1, 3, row.0, row.1]
}

/// Looking up a name gives back the name and 1 if it is that of a row; that there is no
/// such instance if it only begins as those of rows do; and else that there is no such
/// object.
pub proof fn a_name_is_looked_up(mib: Mib, name: Oid, var: VarBind)
    requires
        call_ensures(Mib::get, (&mib, &name), var),
    ensures
        var.name.components@ == name.components@,
        var.name.inclusive == 0,
        var.data == Value::Integer(1) <==> exists|i: int|
            0 <= i < mib.rows().len() && full_name(#[trigger] mib.rows()[i]) == name.components@,
        var.data != Value::Integer(1) ==> (var.data == Value::NoSuchInstance <==> {
            &&& name.components@.len() >= 11
            &&& name.components@.take(11) == seq![1u32, 3, 6, 1, 2, 1, 31, 1, 2, 1, 3]
        }),
        var.data == Value::Integer(1) || var.data == Value::NoSuchInstance || var.data
            == Value::NoSuchObject,
{
    let rows = mib.rows();
    let components = name.components@;
    assert forall|row: Pair| #[trigger] full_name(row) == crate::mib::row_name(row) by {
        assert(full_name(row) =~= crate::mib::row_name(row));
    }
    if exists|row: Pair| rows.contains(row) && #[trigger] crate::mib::row_name(row) == components {
        let row = choose|row: Pair|
            rows.contains(row) && #[trigger] crate::mib::row_name(row) == components;
        let i = choose|i: int| 0 <= i < rows.len() && rows[i] == row;
        assert(full_name(rows[i]) == components);
    }
    if exists|i: int| 0 <= i < rows.len() && full_name(#[trigger] rows[i]) == components {
        let i = choose|i: int| 0 <= i < rows.len() && full_name(#[trigger] rows[i]) == components;
        assert(rows.contains(rows[i]) && crate::mib::row_name(rows[i]) == components);
    }
    let status = seq![1u32, 3, 6, 1, 2, 1, 31, 1, 2, 1, 3];
    assert(crate::mib::status() =~= status);
    assert(status.is_prefix_of(components) <==> components.len() >= 11 && components.take(11)
        == status) by {
        if components.len() >= 11 {
            assert(components.take(11) =~= components.subrange(0, 11));
        }
    }
}

/// Whether a row is in a range: behind the start, or at it where that may be; and
/// before the end, where the range has one.
pub open spec fn in_range(row: Pair, range: crate::mib::RangeView) -> bool {
    &&& crate::oid::oid_lt(range.start.components, full_name(row)) || (range.start.inclusive == 1
        && range.start.components == full_name(row))
    &&& range.end.components.len() == 0 || crate::oid::oid_lt(
        full_name(row),
        range.end.components,
    )
}

/// A search finds the lowest row in its range; it finds nothing, and gives back the
/// start, exactly if no row is in the range.
pub proof fn a_search_finds_the_lowest_row_in_its_range(mib: Mib, range: SearchRange, var: VarBind)
    requires
        call_ensures(Mib::get_next, (&mib, &range), var),
        crate::pairs::ascending(mib.rows()),
    ensures
        var.name.inclusive == 0,
        match var.data {
            Value::Integer(n) => n == 1 && exists|i: int|
                {
                    &&& 0 <= i < mib.rows().len()
                    &&& full_name(#[trigger] mib.rows()[i]) == var.name.components@
                    &&& in_range(mib.rows()[i], range@)
                    &&& forall|j: int|
                        0 <= j < i ==> !in_range(#[trigger] mib.rows()[j], range@)
                },
            Value::EndOfMibView => {
                &&& var.name.components@ == range.start.components@
                &&& forall|j: int|
                    0 <= j < mib.rows().len() ==> !in_range(#[trigger] mib.rows()[j], range@)
            },
            _ => false,
        },
{
    let rows = mib.rows();
    let view = range@;
    assert forall|row: Pair| #[trigger] full_name(row) == crate::mib::row_name(row) by {
        assert(full_name(row) =~= crate::mib::row_name(row));
    }
    assert forall|j: int| 0 <= j < rows.len() && in_range(#[trigger] rows[j], view) implies {
        &&& var.data == Value::Integer(1)
        &&& var.name.components@ == full_name(rows[j]) || crate::oid::oid_lt(
            var.name.components@,
            full_name(rows[j]),
        )
    } by {
        assert(full_name(rows[j]) == crate::mib::row_name(rows[j]));
        assert(rows.contains(rows[j]));
        crate::mib::a_search_skips_no_row(rows, view, rows[j]);
    }
    if var.data !is EndOfMibView {
        crate::mib::a_search_finds_rows_inside_its_range(rows, view);
        let row = choose|row: Pair|
            rows.contains(row) && #[trigger] crate::mib::row_name(row) == var.name.components@;
        let i = choose|i: int| 0 <= i < rows.len() && rows[i] == row;
        assert(full_name(rows[i]) == var.name.components@);
        assert forall|j: int| 0 <= j < i implies !in_range(#[trigger] rows[j], view) by {
            assert(crate::pairs::pair_lt(rows[j], rows[i]));
            crate::mib::row_names_keep_the_order(rows[j], rows[i]);
            if in_range(rows[j], view) {
                crate::mib::row_names_keep_the_order(rows[i], rows[j]);
                assert(full_name(rows[j]) == crate::mib::row_name(rows[j]));
            }
        }
        assert(in_range(rows[i], view));
    }
}

/// The ranges that are searched once in a bulk request are searched as they are by
/// themselves, and come first.
pub proof fn a_bulk_request_begins_with_single_searches(
    mib: Mib,
    ranges: Vec<SearchRange>,
    non_repeaters: u16,
    max_repetitions: u16,
    vars: Vec<VarBind>,
    i: int,
    var: VarBind,
)
    requires
        call_ensures(Mib::get_bulk, (&mib, ranges, non_repeaters, max_repetitions), vars),
        0 <= i < ranges@.len(),
        i < non_repeaters,
        i < 4096,
        call_ensures(Mib::get_next, (&mib, &ranges@[i]), var),
    ensures
        i < vars@.len(),
        vars@[i]@ == var@,
{
    let views = crate::mib::range_views(ranges@);
    let rows = mib.rows();
    let all = crate::mib::bulk_unbounded(
        rows,
        views,
        non_repeaters as nat,
        max_repetitions as nat,
    );
    assert(views[i] == ranges@[i]@);
    assert(all[i] == crate::mib::next_in(rows, views[i]));
    assert(crate::mib::var_views(vars@).len() == vars@.len());
    assert(crate::mib::var_views(vars@)[i] == vars@[i]@);
}

/// The other ranges of a bulk request are searched in rounds: in the first one from
/// where they start, and then each from the name that its last search has found. The
/// rounds stand one after the other, with one variable for each range.
pub proof fn a_bulk_request_goes_on_in_rounds(
    mib: Mib,
    ranges: Vec<SearchRange>,
    non_repeaters: u16,
    max_repetitions: u16,
    vars: Vec<VarBind>,
    count: int,
    n: nat,
    j: int,
    range: SearchRange,
    var: VarBind,
)
    requires
        call_ensures(Mib::get_bulk, (&mib, ranges, non_repeaters, max_repetitions), vars),
        count == if non_repeaters < ranges@.len() {
            non_repeaters as int
        } else {
            ranges@.len() as int
        },
        0 <= j < ranges@.len() - count,
        count + n * (ranges@.len() - count) + j < vars@.len(),
        range@.end == ranges@[count + j]@.end,
        n == 0 ==> range@.start == ranges@[count + j]@.start,
        n > 0 ==> range@.start == vars@[count + (n - 1) * (ranges@.len() - count) + j]@.name,
        call_ensures(Mib::get_next, (&mib, &range), var),
    ensures
        n < max_repetitions,
        vars@[count + n * (ranges@.len() - count) + j]@ == var@,
{
    let views = crate::mib::range_views(ranges@);
    let rows = mib.rows();
    let others = views.skip(count);
    let width = ranges@.len() - count;
    let max = max_repetitions as nat;
    let later = crate::mib::rounds(rows, others, 0, max);
    let rounds = crate::mib::round_count(rows, others, 0, max);
    let all = crate::mib::bulk_unbounded(rows, views, non_repeaters as nat, max);
    crate::mib::rounds_go_on_until_one_finds_nothing(rows, others, 0, max);
    assert(all.len() == count + later.len());
    assert(others[j] == views[count + j] && views[count + j] == ranges@[count + j]@);
    assert(crate::mib::var_views(vars@).len() == vars@.len());
    assert(0 <= n * width) by (nonlinear_arith)
        requires
            0 <= n,
            0 < width,
    ;
    assert(n < rounds) by (nonlinear_arith)
        requires
            n * width + j < rounds * width,
            0 <= j,
            0 < width,
    ;
    assert(later[n * width + j] == crate::mib::repetition(rows, others[j], 0 + n));
    assert(all[count + (n * width + j)] == later[n * width + j]);
    assert(crate::mib::var_views(vars@)[count + n * width + j] == vars@[count + n * width + j]@);
    if n > 0 {
        let m = (n - 1) as nat;
        assert(m * width + width == n * width) by (nonlinear_arith)
            requires
                n == m + 1,
        ;
        assert(0 <= m * width) by (nonlinear_arith)
            requires
                0 <= m,
                0 < width,
        ;
        assert(later[m * width + j] == crate::mib::repetition(rows, others[j], 0 + m));
        assert(all[count + (m * width + j)] == later[m * width + j]);
        assert(crate::mib::var_views(vars@)[count + m * width + j] == vars@[count + m * width
            + j]@);
    }
}

/// A bulk request is answered with as many rounds as it asks for, up to 4096
/// variables in all; there are fewer only if a round has found nothing at all, which
/// is the last one then, and no round before it has.
pub proof fn a_bulk_request_ends_early_only_if_a_round_finds_nothing(
    mib: Mib,
    ranges: Vec<SearchRange>,
    non_repeaters: u16,
    max_repetitions: u16,
    vars: Vec<VarBind>,
    count: int,
    width: int,
)
    requires
        call_ensures(Mib::get_bulk, (&mib, ranges, non_repeaters, max_repetitions), vars),
        count == if non_repeaters < ranges@.len() {
            non_repeaters as int
        } else {
            ranges@.len() as int
        },
        width == ranges@.len() - count,
    ensures
        vars@.len() <= 4096,
        exists|rounds: int|
            {
                &&& 0 <= rounds <= max_repetitions
                &&& vars@.len() == if count + #[trigger] product(rounds, width) < 4096 {
                    count + product(rounds, width)
                } else {
                    4096
                }
                &&& rounds < max_repetitions ==> rounds > 0
                &&& rounds < max_repetitions && count + product(rounds, width) <= 4096
                    ==> nothing_found(vars@, count + product(rounds - 1, width), width)
                &&& forall|n: int|
                    0 <= n < rounds - 1 && count + product(n + 1, width) <= 4096
                        ==> !nothing_found(vars@, count + #[trigger] product(n, width), width)
            },
{
    let views = crate::mib::range_views(ranges@);
    let rows = mib.rows();
    let others = views.skip(count);
    let max = max_repetitions as nat;
    let later = crate::mib::rounds(rows, others, 0, max);
    let rounds = crate::mib::round_count(rows, others, 0, max) as int;
    let all = crate::mib::bulk_unbounded(rows, views, non_repeaters as nat, max);
    let got = crate::mib::var_views(vars@);
    crate::mib::rounds_go_on_until_one_finds_nothing(rows, others, 0, max);
    assert(others.len() == width);
    assert(later.len() == product(rounds, width));
    assert(all.len() == count + product(rounds, width));
    assert(got.len() == vars@.len());
    assert forall|n: int| 0 <= n < rounds && count + product(n + 1, width) <= 4096 implies (
    nothing_found(vars@, count + #[trigger] product(n, width), width) <==> crate::mib::exhausted(
        crate::mib::round(rows, others, n as nat),
    )) by {
        let this = crate::mib::round(rows, others, n as nat);
        assert(product(n, width) + width == product(n + 1, width)) by (nonlinear_arith)
            requires
                product(n, width) == n * width,
                product(n + 1, width) == (n + 1) * width,
        ;
        assert(product(n + 1, width) <= product(rounds, width)) by (nonlinear_arith)
            requires
                product(n + 1, width) == (n + 1) * width,
                product(rounds, width) == rounds * width,
                n + 1 <= rounds,
                0 <= width,
        ;
        assert(0 <= product(n, width)) by (nonlinear_arith)
            requires
                product(n, width) == n * width,
                0 <= n,
                0 <= width,
        ;
        let from = count + product(n, width);
        assert forall|j: int| 0 <= j < width implies (#[trigger] this[j]) == vars@[from + j]@ by {
            assert(later[(n as nat) * others.len() + j] == crate::mib::repetition(
                rows,
                others[j],
                0 + (n as nat),
            ));
            assert(all[count + (product(n, width) + j)] == later[product(n, width) + j]);
            assert(got[from + j] == vars@[from + j]@);
        }
        if nothing_found(vars@, from, width) {
            assert forall|j: int| 0 <= j < this.len() implies (#[trigger] this[j]).data
                is EndOfMibView by {
                assert(vars@[from + j].data is EndOfMibView);
            }
        }
        if crate::mib::exhausted(this) {
            assert forall|k: int| from <= k < from + width implies (#[trigger] vars@[k]).data
                is EndOfMibView by {
                assert(this[k - from].data is EndOfMibView);
            }
        }
    }
    if rounds < max_repetitions && count + product(rounds, width) <= 4096 {
        let n = rounds - 1;
        assert(n + 1 == rounds);
        assert(count + product(n + 1, width) <= 4096);
        assert(nothing_found(vars@, count + product(n, width), width));
    }
    assert forall|n: int|
        0 <= n < rounds - 1 && count + product(n + 1, width) <= 4096 implies !nothing_found(
        vars@,
        count + #[trigger] product(n, width),
        width,
    ) by {
        assert(!crate::mib::exhausted(crate::mib::round(rows, others, 0 + (n as nat))));
    }
    assert(got.len() == vars@.len());
    assert(vars@.len() == if count + product(rounds, width) < 4096 {
        count + product(rounds, width)
    } else {
        4096
    });
}

/// The product of two numbers.
pub open spec fn product(a: int, b: int) -> int {
    a * b
}

/// Whether none of the variables from a position on has been found.
pub open spec fn nothing_found(vars: Seq<VarBind>, from: int, width: int) -> bool {
    forall|k: int| from <= k < from + width ==> (#[trigger] vars[k]).data == Value::EndOfMibView
}

/// The command line is made sense of from the front: nothing asks to run; help and the
/// version are asked for whatever follows; an option takes the argument behind it, and
/// its value counts unless a later one is given; everything else is refused.
pub proof fn arguments_are_made_sense_of_from_the_front(
    arguments: Vec<Vec<u8>>,
    parsed: Result<Arguments, String>,
    rest: Vec<Vec<u8>>,
    later: Result<Arguments, String>,
)
    requires
        call_ensures(crate::config::parse_arguments, (&arguments,), parsed),
        call_ensures(crate::config::parse_arguments, (&rest,), later),
        arguments@.len() >= 2 ==> crate::config::argument_views(rest@)
            == crate::config::argument_views(arguments@).skip(2),
    ensures
        arguments@.len() == 0 ==> parsed matches Ok(
            Arguments::Run { path: None, socket: None },
        ),
        arguments@.len() > 0 ==> {
            let first = arguments@[0]@;
            let valued = arguments@.len() >= 2 && arguments@[1]@.len() > 0 && !(
            arguments@[1]@.len() >= 2 && arguments@[1]@[0] == 0x2d && arguments@[1]@[1] == 0x2d);
            if first == vstd::utf8::encode_utf8("--help"@) || first == vstd::utf8::encode_utf8(
                "-h"@,
            ) {
                parsed matches Ok(Arguments::Help)
            } else if first == vstd::utf8::encode_utf8("--version"@) {
                parsed matches Ok(Arguments::Version)
            } else if (first == vstd::utf8::encode_utf8("--config"@) || first
                == vstd::utf8::encode_utf8("--socket"@)) && valued {
                match later {
                    Ok(Arguments::Run { path, socket }) => parsed matches Ok(
                        Arguments::Run { path: named_path, socket: named_socket },
                    ) && {
                        &&& optional(named_path) == if path is None && first
                            == vstd::utf8::encode_utf8("--config"@) {
                            Some(arguments@[1]@)
                        } else {
                            optional(path)
                        }
                        &&& optional(named_socket) == if socket is None && first
                            == vstd::utf8::encode_utf8("--socket"@) {
                            Some(arguments@[1]@)
                        } else {
                            optional(socket)
                        }
                    },
                    Ok(Arguments::Help) => parsed matches Ok(Arguments::Help),
                    Ok(Arguments::Version) => parsed matches Ok(Arguments::Version),
                    Err(reason) => parsed matches Err(same) && same@ == reason@,
                }
            } else {
                parsed is Err
            }
        },
{
    let views = crate::config::argument_views(arguments@);
    crate::config::lemma_options_differ();
    if arguments@.len() > 0 {
        assert(views[0] == arguments@[0]@);
        if arguments@.len() >= 2 {
            assert(views[1] == arguments@[1]@);
            crate::config::later_names_count(views, 2, Some(views[1]), None);
            crate::config::later_names_count(views, 2, None, Some(views[1]));
        }
    }
}

/// The value of bytes that may be missing.
pub open spec fn optional(bytes: Option<Vec<u8>>) -> Option<Seq<u8>> {
    match bytes {
        Some(bytes) => Some(bytes@),
        None => None,
    }
}

/// What a file says is run with if it can be: with the socket of the command line in
/// place of its own, and all else as it is.
pub proof fn what_a_file_says_is_run_with(
    path: Option<Vec<u8>>,
    socket: Option<Vec<u8>>,
    default_path: Vec<u8>,
    config: Config,
    settled: Result<Action, String>,
)
    requires
        call_ensures(
            crate::config::load,
            (Arguments::Run { path, socket }, &default_path, FileOutcome::Said(config)),
            settled,
        ),
    ensures
        settled is Ok <==> {
            &&& config.reconcile >= 1
            &&& config.priority >= 1
            &&& match socket {
                Some(socket) => socket@.len() > 0,
                None => config.socket@.len() > 0,
            }
        },
        settled matches Ok(action) ==> (action matches Action::Run(run) && {
            &&& run.socket@ == match socket {
                Some(socket) => socket@,
                None => config.socket@,
            }
            &&& run.reconcile == config.reconcile
            &&& run.priority == config.priority
            &&& run.log_level == config.log_level
        }),
{
}

/// Without a file that the command line names, an absent file stands for the built-in
/// values; a file that it names has to be there; and no file is passed over that
/// cannot be read or makes no sense.
pub proof fn a_missing_file_stands_for_the_built_in_values(
    path: Option<Vec<u8>>,
    socket: Option<Vec<u8>>,
    default_path: Vec<u8>,
    reason: String,
    absent: Result<Action, String>,
    unreadable: Result<Action, String>,
    invalid: Result<Action, String>,
)
    requires
        call_ensures(
            crate::config::load,
            (Arguments::Run { path, socket }, &default_path, FileOutcome::Absent(reason)),
            absent,
        ),
        call_ensures(
            crate::config::load,
            (Arguments::Run { path, socket }, &default_path, FileOutcome::Unreadable(reason)),
            unreadable,
        ),
        call_ensures(
            crate::config::load,
            (Arguments::Run { path, socket }, &default_path, FileOutcome::Invalid(reason)),
            invalid,
        ),
    ensures
        unreadable is Err,
        invalid is Err,
        path is Some ==> absent is Err,
        path is None && (socket matches Some(socket) ==> socket@.len() > 0) ==> (absent matches Ok(
            Action::Run(run),
        ) && {
            &&& run.socket@ == match socket {
                Some(socket) => socket@,
                None => vstd::utf8::encode_utf8("/var/agentx/master"@),
            }
            &&& run.reconcile == 3600
            &&& run.priority == 127
            &&& run.log_level == LogLevel::Info
        }),
{
    reveal_strlit("/var/agentx/master");
    vstd::utf8::is_ascii_chars_encode_utf8("/var/agentx/master"@);
}

/// Help and the version are given whatever comes of the file.
pub proof fn help_and_the_version_need_no_file(
    default_path: Vec<u8>,
    file: FileOutcome,
    help: Result<Action, String>,
    version: Result<Action, String>,
)
    requires
        call_ensures(crate::config::load, (Arguments::Help, &default_path, file), help),
        call_ensures(crate::config::load, (Arguments::Version, &default_path, file), version),
    ensures
        help matches Ok(Action::Help),
        version matches Ok(Action::Version),
{
}

/// The file that is read is the one that the command line names, or else the default
/// one.
pub proof fn the_named_file_is_read(path: Option<Vec<u8>>, default_path: Vec<u8>, read: Vec<u8>)
    requires
        call_ensures(crate::config::selected_path, (&path, &default_path), read),
    ensures
        read@ == match path {
            Some(path) => path@,
            None => default_path@,
        },
{
}

/// A level of the log lets through what it is named after.
pub proof fn a_level_lets_through_what_it_is_named_after(
    level: LogLevel,
    filter: log::LevelFilter,
)
    requires
        call_ensures(LogLevel::filter, (level,), filter),
    ensures
        level == LogLevel::Error <==> filter == log::LevelFilter::Error,
        level == LogLevel::Warn <==> filter == log::LevelFilter::Warn,
        level == LogLevel::Info <==> filter == log::LevelFilter::Info,
        level == LogLevel::Debug <==> filter == log::LevelFilter::Debug,
        level == LogLevel::Trace <==> filter == log::LevelFilter::Trace,
{
}

/// An at sign stands for a name of its own kind, which is all that follows it; a slash
/// begins a path; nothing else is an address.
pub proof fn an_address_is_a_name_or_a_path(socket: Vec<u8>, address: Result<Address, Error>)
    requires
        call_ensures(crate::notify::address, (&socket,), address),
    ensures
        match address {
            Ok(Address::Abstract(name)) => socket@ == seq![0x40u8] + name@ && name@.len() > 0,
            Ok(Address::Path(path)) => socket@ == path@ && path@.len() > 0 && path@[0] == 0x2f,
            Err(_) => socket@.len() == 0 || (socket@[0] != 0x2f && (socket@[0] != 0x40
                || socket@.len() == 1)),
        },
{
    if let Ok(Address::Abstract(name)) = address {
        assert(socket@ =~= seq![0x40u8] + name@);
    }
}

/// The delay before the next connection is one second after a session of half a minute
/// or more, and else the one that was due; and the one after that is twice as long, but
/// no longer than half a minute.
pub proof fn connections_are_made_again_ever_later(lasted: Span)
    ensures
        forall|backoff: &mut Backoff, delay: Span| #[trigger]
            call_ensures(Backoff::after_session, (backoff, lasted), delay) ==> {
                &&& lasted.nanos >= 30_000_000_000 ==> delay.nanos == 1_000_000_000
                &&& lasted.nanos < 30_000_000_000 ==> delay == backoff.delay
                &&& final(backoff).delay.nanos == if 2 * delay.nanos < 30_000_000_000 {
                    2 * delay.nanos
                } else {
                    30_000_000_000
                }
            },
        forall|backoff: Backoff| #[trigger]
            call_ensures(Backoff::new, (), backoff) ==> backoff.delay.nanos == 1_000_000_000,
{
}

/// Spans are counted in nanoseconds: what is added is there afterwards, and what is
/// taken away is gone, as far as spans go.
pub proof fn spans_are_counted_in_nanoseconds(
    a: Span,
    b: Span,
    sum: Span,
    left: Span,
    secs: u64,
    span: Span,
)
    requires
        call_ensures(Span::saturating_add, (a, b), sum),
        call_ensures(Span::saturating_sub, (a, b), left),
        call_ensures(Span::from_secs, (secs,), span),
    ensures
        span.nanos == secs * 1_000_000_000,
        a.nanos + b.nanos <= 18_446_744_073_709_551_615_999_999_999 ==> sum.nanos == a.nanos
            + b.nanos,
        a.nanos + b.nanos > 18_446_744_073_709_551_615_999_999_999 ==> sum.nanos
            == 18_446_744_073_709_551_615_999_999_999,
        a.nanos >= b.nanos ==> left.nanos == a.nanos - b.nanos,
        a.nanos < b.nanos ==> left.nanos == 0,
{
}

/// A datagram is decoded message by message: the first one is as long as it says and
/// has its number, its flags and its kind where they are; the next one begins at the
/// next multiple of four bytes, and is decoded as if it were the first.
pub proof fn a_datagram_is_decoded_message_by_message(
    bytes: &[u8],
    order: HostOrder,
    decoded: Result<Vec<Message>, Error>,
    rest: &[u8],
    others: Result<Vec<Message>, Error>,
    length: int,
    next: int,
)
    requires
        call_ensures(crate::netlink::decode_datagram, (bytes, &order), decoded),
        call_ensures(crate::netlink::decode_datagram, (rest, &order), others),
        length == crate::wire::u32_at(bytes@, 0, order.is_high_first()),
        next == (length + 3) / 4 * 4,
        next < bytes@.len() ==> rest@ == bytes@.skip(next),
    ensures
        bytes@.len() == 0 ==> (decoded matches Ok(messages) && messages@.len() == 0),
        0 < bytes@.len() < 16 ==> decoded is Err,
        bytes@.len() > 0 ==> (decoded matches Ok(messages) ==> {
            &&& 16 <= length <= bytes@.len()
            &&& length == bytes@.len() || next <= bytes@.len()
            &&& messages@.len() > 0
            &&& messages@[0].sequence == crate::wire::u32_at(bytes@, 8, order.is_high_first())
            &&& messages@[0].flags == crate::wire::u16_at(bytes@, 6, order.is_high_first())
            &&& match crate::wire::u16_at(bytes@, 4, order.is_high_first()) {
                1 => messages@[0].body is Noop,
                2 => messages@[0].body is Error,
                3 => messages@[0].body is Done,
                4 => messages@[0].body is Overrun,
                16 => messages@[0].body is NewLink,
                17 => messages@[0].body is DelLink,
                _ => messages@[0].body is Other,
            }
            &&& next >= bytes@.len() ==> messages@.len() == 1
            &&& next < bytes@.len() ==> (others matches Ok(others) && messages@.len() == 1
                + others@.len() && forall|i: int|
                0 <= i < others@.len() ==> (#[trigger] others@[i])@ == messages@[i + 1]@)
        }),
        decoded is Err && bytes@.len() >= 16 && 16 <= length <= bytes@.len() ==> {
            ||| crate::netlink::readable(bytes@.take(length), order.is_high_first()) is Err
            ||| length < bytes@.len() < next
            ||| next < bytes@.len() && others is Err
        },
{
    let high_first = order.is_high_first();
    if bytes@.len() > 0 {
        crate::netlink::messages_follow_each_other(bytes@, length, next, high_first);
    }
    if let Ok(messages) = decoded {
        let views = crate::netlink::message_views(messages@);
        assert(views.len() == messages@.len());
        if bytes@.len() > 0 {
            crate::netlink::a_message_is_of_the_kind_that_it_says(bytes@, length, high_first);
            assert(views[0] == messages@[0]@);
            if next < bytes@.len() {
                let tail = crate::netlink::message_views(others->Ok_0@);
                assert(tail.len() == others->Ok_0@.len());
                assert forall|i: int| 0 <= i < others->Ok_0@.len() implies (
                #[trigger] others->Ok_0@[i])@ == messages@[i + 1]@ by {
                    assert(tail[i] == views.skip(1)[i]);
                    assert(views[i + 1] == messages@[i + 1]@);
                }
            }
        }
    }
}

/// A notification has to come from the kernel as a whole. It is accepted exactly if its
/// messages are decoded, answer no request, and tell of interfaces or say nothing; and
/// it tells of a change exactly if one of them tells of an interface, be it there or
/// gone.
pub proof fn a_notification_tells_of_interfaces_that_come_change_or_go(
    datagram: Datagram,
    order: HostOrder,
    read: Result<bool, Error>,
    bytes: &[u8],
    decoded: Result<Vec<Message>, Error>,
)
    requires
        call_ensures(crate::netlink::read_notification, (&datagram, &order), read),
        bytes@ == datagram.bytes@,
        call_ensures(crate::netlink::decode_datagram, (bytes, &order), decoded),
    ensures
        read is Ok ==> !datagram.truncated && datagram.from_kernel && datagram.bytes@.len() > 0
            && decoded is Ok,
        !datagram.truncated && datagram.from_kernel && datagram.bytes@.len() > 0 ==> match decoded {
            Err(reason) => read matches Err(error) && error@ == reason@,
            Ok(messages) => {
                &&& read is Ok <==> forall|i: int|
                    0 <= i < messages@.len() ==> (#[trigger] messages@[i]).sequence == 0 && (
                    messages@[i].body is NewLink || messages@[i].body is DelLink
                        || messages@[i].body is Noop)
                &&& read matches Ok(changed) ==> (changed <==> exists|i: int|
                    0 <= i < messages@.len() && ((#[trigger] messages@[i]).body is NewLink
                        || messages@[i].body is DelLink))
            },
        },
{
    if decoded is Ok {
        let messages = decoded->Ok_0@;
        let views = crate::netlink::message_views(messages);
        let n = views.len() as int;
        assert(n == messages.len());
        assert forall|i: int| 0 <= i < n implies #[trigger] views[i] == messages[i]@ by {}
        crate::netlink::a_notification_is_accepted_exactly_if_it_holds_nothing_else(views, n);
        if crate::netlink::change_of(views, n) is Ok {
            crate::netlink::a_notification_tells_of_a_change_exactly_if_an_interface_changed(
                views,
                n,
            );
            if exists|i: int|
                0 <= i < n && ((#[trigger] views[i]).body is NewLink || views[i].body is DelLink) {
                let i = choose|i: int|
                    0 <= i < n && ((#[trigger] views[i]).body is NewLink || views[i].body
                        is DelLink);
                assert(messages[i].body is NewLink || messages[i].body is DelLink);
            }
            if exists|i: int|
                0 <= i < n && ((#[trigger] messages[i]).body is NewLink || messages[i].body
                    is DelLink) {
                let i = choose|i: int|
                    0 <= i < n && ((#[trigger] messages[i]).body is NewLink || messages[i].body
                        is DelLink);
                assert(views[i].body is NewLink || views[i].body is DelLink);
            }
        }
        if forall|i: int|
            0 <= i < messages.len() ==> (#[trigger] messages[i]).sequence == 0 && (messages[i].body
                is NewLink || messages[i].body is DelLink || messages[i].body is Noop) {
            assert forall|i: int| 0 <= i < n implies (#[trigger] views[i]).sequence == 0 && (
            views[i].body is NewLink || views[i].body is DelLink || views[i].body is Noop) by {
                assert(messages[i].sequence == 0);
            }
        }
        if forall|i: int|
            0 <= i < n ==> (#[trigger] views[i]).sequence == 0 && (views[i].body is NewLink
                || views[i].body is DelLink || views[i].body is Noop) {
            assert forall|i: int|
                0 <= i < messages.len() implies (#[trigger] messages[i]).sequence == 0 && (
            messages[i].body is NewLink || messages[i].body is DelLink || messages[i].body
                is Noop) by {
                assert(views[i].sequence == 0);
            }
        }
    }
}

/// What a message says of an interface is taken over as it says it, and nothing is
/// added: its index, its name, its controller, its lower interface and the namespace of
/// that, and the kind and the underlay that its description tells.
pub proof fn a_link_is_what_its_record_says(
    record: LinkRecord,
    decoded: Result<ObservedLink, Error>,
)
    requires
        call_ensures(crate::netlink::decode_link, (&record,), decoded),
    ensures
        decoded matches Ok(link) ==> {
            let fields = record@.fields;
            &&& link.index == record.index
            &&& exists|i: int| 0 <= i < fields.len() && #[trigger] fields[i] is Named
            &&& forall|i: int|
                0 <= i < fields.len() ==> match #[trigger] fields[i] {
                    LinkFieldView::Named(name) => link.name@ == name,
                    LinkFieldView::ControlledBy(index) => link.controller == Some(index),
                    LinkFieldView::Above(index) => link.lower == Some(index),
                    LinkFieldView::AboveNamespace(id) => link.lower_netnsid == Some(id),
                    _ => true,
                }
            &&& link.controller is Some ==> exists|i: int|
                0 <= i < fields.len() && #[trigger] fields[i] is ControlledBy
            &&& link.lower is Some ==> exists|i: int|
                0 <= i < fields.len() && #[trigger] fields[i] is Above
            &&& link.lower_netnsid is Some ==> exists|i: int|
                0 <= i < fields.len() && #[trigger] fields[i] is AboveNamespace
            &&& forall|i: int, a: int|
                0 <= i < fields.len() && #[trigger] crate::netlink::tells_kind(fields, i, a)
                    ==> link.kind == crate::netlink::kind_named(
                    Some(fields[i]->Described_0[a]->Called_0),
                )
            &&& (forall|i: int, a: int|
                0 <= i < fields.len() ==> !(#[trigger] crate::netlink::tells_kind(fields, i, a)))
                ==> link.kind == LinkKind::Other
            &&& forall|i: int, a: int, k: int|
                #![trigger crate::netlink::tells_data(fields, i, a), fields[i]->Described_0[a]->Tunnel_0[k]]
                0 <= i < fields.len() && crate::netlink::tells_data(fields, i, a)
                    && fields[i]->Described_0[a] is Tunnel && 0 <= k
                    < fields[i]->Described_0[a]->Tunnel_0.len()
                    && fields[i]->Described_0[a]->Tunnel_0[k] is Some ==> link.vxlan_lower
                    == fields[i]->Described_0[a]->Tunnel_0[k]
            &&& link.vxlan_lower is Some ==> exists|i: int, a: int|
                0 <= i < fields.len() && #[trigger] crate::netlink::tells_data(fields, i, a)
                    && fields[i]->Described_0[a] is Tunnel
        },
        decoded matches Err(error) ==> {
            let fields = record@.fields;
            &&& error@.kind == ErrorKind::InvalidData
            &&& {
                ||| crate::netlink::says_twice(fields, fields.len() as int)
                ||| forall|i: int| 0 <= i < fields.len() ==> !(#[trigger] fields[i] is Named)
                ||| exists|i: int, a: int, j: int, k: int|
                    #![trigger crate::netlink::tells_data(fields, i, a), fields[i]->Described_0[a]->Tunnel_0[j], fields[i]->Described_0[a]->Tunnel_0[k]]
                    0 <= i < fields.len() && crate::netlink::tells_data(fields, i, a)
                        && fields[i]->Described_0[a] is Tunnel && 0 <= j < k
                        < fields[i]->Described_0[a]->Tunnel_0.len()
                        && fields[i]->Described_0[a]->Tunnel_0[j] is Some
                        && fields[i]->Described_0[a]->Tunnel_0[k] is Some
            }
        },
{
    let fields = record@.fields;
    let n = fields.len() as int;
    let found = crate::netlink::found_in(fields, n);
    if found is Err {
        crate::netlink::a_record_is_refused_only_if_something_is_there_twice(fields, n);
    } else {
        crate::netlink::nothing_in_a_record_is_lost_or_made_up(fields, n);
        if let Some(Some(through)) = found->Ok_0.data {
            crate::netlink::a_tunnel_goes_through_the_index_that_its_data_name(
                through,
                through.len() as int,
            );
            let (i, a) = choose|i: int, a: int|
                0 <= i < n && #[trigger] crate::netlink::tells_data(fields, i, a);
            assert(crate::netlink::tells_data(fields, i, a));
            assert(fields[i]->Described_0[a]->Tunnel_0 == through);
            if crate::netlink::tunnel_through(through, through.len() as int) is Err {
                let (j, k) = choose|j: int, k: int|
                    #![trigger through[j], through[k]]
                    0 <= j < k < through.len() && through[j] is Some && through[k] is Some;
                assert(fields[i]->Described_0[a]->Tunnel_0[j] is Some);
                assert(fields[i]->Described_0[a]->Tunnel_0[k] is Some);
            }
        }
    }
}

/// The kind of a link has the name that the kernel has for it.
pub proof fn a_kind_has_the_name_of_the_kernel(text: Seq<char>)
    ensures
        crate::netlink::kind_named(Some(text)) == LinkKind::Bond <==> text == "bond"@,
        crate::netlink::kind_named(Some(text)) == LinkKind::Bridge <==> text == "bridge"@,
        crate::netlink::kind_named(Some(text)) == LinkKind::Vlan <==> text == "vlan"@,
        crate::netlink::kind_named(Some(text)) == LinkKind::MacVlan <==> text == "macvlan"@,
        crate::netlink::kind_named(Some(text)) == LinkKind::IpVlan <==> text == "ipvlan"@,
        crate::netlink::kind_named(Some(text)) == LinkKind::MacVtap <==> text == "macvtap"@,
        crate::netlink::kind_named(Some(text)) == LinkKind::Vxlan <==> text == "vxlan"@,
        crate::netlink::kind_named(Some(text)) == LinkKind::Veth <==> text == "veth"@,
{
    crate::netlink::a_kind_is_told_by_its_name(text);
}

/// An answer is taken over exactly if it is decoded and whole: each message belongs to
/// the request, was not interrupted, and tells of an interface, or, as the last one,
/// that the inventory is complete. The interfaces are added in their order, each as it
/// is decoded by itself, and the inventory ends exactly if the answer says so.
pub proof fn an_answer_is_taken_over_if_it_is_whole(
    bytes: &[u8],
    order: HostOrder,
    sequence: u32,
    decoded: Result<Vec<Message>, Error>,
)
    requires
        call_ensures(crate::netlink::decode_datagram, (bytes, &order), decoded),
    ensures
        forall|links: &mut Vec<ObservedLink>, consumed: Result<bool, Error>| #[trigger]
            call_ensures(
                crate::netlink::consume_dump,
                (bytes, &order, sequence, links),
                consumed,
            ) ==> match decoded {
                Err(reason) => consumed matches Err(error) && error@ == reason@,
                Ok(messages) => {
                    &&& consumed is Ok <==> forall|i: int|
                        0 <= i < messages@.len() ==> (#[trigger] messages@[i]).sequence == sequence
                            && messages@[i].flags & 16 == 0 && match messages@[i].body {
                            Body::NewLink(record) => crate::netlink::observed_in(record@) is Ok,
                            Body::Done(code) => code == 0 && i == messages@.len() - 1,
                            _ => false,
                        }
                    &&& consumed matches Ok(ended) ==> {
                        &&& ended <==> messages@.len() > 0 && messages@.last().body is Done
                        &&& final(links)@.len() == links@.len() + messages@.len() - if ended {
                            1int
                        } else {
                            0int
                        }
                        &&& forall|i: int|
                            0 <= i < links@.len() ==> (#[trigger] final(links)@[i])@ == links@[i]@
                        &&& forall|i: int|
                            links@.len() <= i < final(links)@.len() ==> (messages@[i
                                - links@.len()].body matches Body::NewLink(record)
                                && crate::netlink::observed_in(record@) == Ok::<
                                ObservedView,
                                crate::error::Report,
                            >((#[trigger] final(links)@[i])@))
                    }
                },
            },
{
    if let Ok(messages) = decoded {
        let views = crate::netlink::message_views(messages@);
        let n = views.len() as int;
        assert(n == messages@.len());
        assert forall|i: int| 0 <= i < n implies #[trigger] views[i] == messages@[i]@ by {}
        crate::netlink::an_answer_is_accepted_exactly_if_it_is_whole(views, sequence, n);
        let whole = crate::netlink::dump_of(views, sequence, n) is Ok;
        assert(whole <==> forall|i: int|
            0 <= i < messages@.len() ==> (#[trigger] messages@[i]).sequence == sequence
                && messages@[i].flags & 16 == 0 && match messages@[i].body {
                Body::NewLink(record) => crate::netlink::observed_in(record@) is Ok,
                Body::Done(code) => code == 0 && i == messages@.len() - 1,
                _ => false,
            }) by {
            if whole {
                assert forall|i: int| 0 <= i < messages@.len() implies (
                #[trigger] messages@[i]).sequence == sequence && messages@[i].flags & 16 == 0
                    && match messages@[i].body {
                    Body::NewLink(record) => crate::netlink::observed_in(record@) is Ok,
                    Body::Done(code) => code == 0 && i == messages@.len() - 1,
                    _ => false,
                } by {
                    assert(views[i].sequence == sequence);
                }
            } else {
                let i = choose|i: int|
                    0 <= i < n && !((#[trigger] views[i]).sequence == sequence && views[i].flags
                        & 16 == 0 && match views[i].body {
                        BodyView::NewLink(record) => crate::netlink::observed_in(record) is Ok,
                        BodyView::Done(code) => code == 0 && i == views.len() - 1,
                        _ => false,
                    });
                assert(views[i] == messages@[i]@);
            }
        }
        if whole {
            crate::netlink::an_accepted_answer_is_told_completely(views, sequence, n);
            assert forall|links: &mut Vec<ObservedLink>, consumed: Result<bool, Error>| #[trigger]
                call_ensures(
                    crate::netlink::consume_dump,
                    (bytes, &order, sequence, links),
                    consumed,
                ) implies consumed matches Ok(ended) && {
                &&& ended <==> messages@.len() > 0 && messages@.last().body is Done
                &&& final(links)@.len() == links@.len() + messages@.len() - if ended {
                    1int
                } else {
                    0int
                }
                &&& forall|i: int|
                    0 <= i < links@.len() ==> (#[trigger] final(links)@[i])@ == links@[i]@
                &&& forall|i: int|
                    links@.len() <= i < final(links)@.len() ==> (messages@[i
                        - links@.len()].body matches Body::NewLink(record)
                        && crate::netlink::observed_in(record@) == Ok::<
                        ObservedView,
                        crate::error::Report,
                    >((#[trigger] final(links)@[i])@))
            } by {
                let before = crate::netlink::link_views(links@);
                let after = crate::netlink::link_views(final(links)@);
                let found = crate::netlink::dump_of(views, sequence, n)->Ok_0.1;
                assert(after == before + found);
                assert(before.len() == links@.len() && after.len() == final(links)@.len());
                if n > 0 {
                    assert(views[n - 1] == messages@[n - 1]@);
                }
                assert forall|i: int| 0 <= i < links@.len() implies (
                #[trigger] final(links)@[i])@ == links@[i]@ by {
                    assert(after[i] == before[i]);
                }
                assert forall|i: int| links@.len() <= i < final(links)@.len() implies (messages@[i
                    - links@.len()].body matches Body::NewLink(record)
                    && crate::netlink::observed_in(record@) == Ok::<
                    ObservedView,
                    crate::error::Report,
                >((#[trigger] final(links)@[i])@)) by {
                    let k = i - links@.len();
                    assert(after[i] == found[k]);
                    assert(views[k] == messages@[k]@);
                    assert(views[k].body is NewLink);
                }
            }
        }
    }
}

/// An answer counts only if it comes from the kernel as a whole, and if all answers
/// together have no more than 16777216 bytes.
pub proof fn answers_are_bounded_and_come_from_the_kernel(datagram: Datagram, order: HostOrder)
    ensures
        forall|dump: &mut Dump, taken: Result<bool, Error>| #[trigger]
            call_ensures(Dump::take, (dump, &datagram, &order), taken) ==> {
                &&& taken is Ok ==> !datagram.truncated && datagram.from_kernel
                    && datagram.bytes@.len() > 0 && dump.total + datagram.bytes@.len() <= 16777216
                    && final(dump).total == dump.total + datagram.bytes@.len()
                &&& taken is Err && !datagram.truncated && datagram.from_kernel
                    && datagram.bytes@.len() > 0 && dump.total + datagram.bytes@.len() <= 16777216
                    ==> crate::netlink::dump_in(
                    datagram.bytes@,
                    order.is_high_first(),
                    dump.sequence,
                ) is Err
                &&& taken matches Ok(ended) ==> (crate::netlink::dump_in(
                    datagram.bytes@,
                    order.is_high_first(),
                    dump.sequence,
                ) matches Ok((end, found)) && end == ended)
                &&& final(dump).events == dump.events
                &&& final(dump).sequence == dump.sequence
            },
{
}

/// The first change is kept, and the last one is the latest.
pub proof fn the_first_and_the_latest_change_are_noted(at: Span)
    ensures
        forall|dump: &mut Dump, done: ()| #[trigger]
            call_ensures(Dump::note_event, (dump, at), done) ==> {
                &&& final(dump).events.last == Some(at)
                &&& dump.events.first is Some ==> final(dump).events.first == dump.events.first
                &&& dump.events.first is None ==> final(dump).events.first == Some(at)
                &&& final(dump).links == dump.links && final(dump).total == dump.total
                    && final(dump).sequence == dump.sequence
            },
{
}

/// A turn of an inventory is a loss exactly if the notifications fail; it is another
/// failure exactly if the socket or the answer fails while they do not; it completes the
/// inventory exactly if nothing fails and the answer ends it. A failure comes with the
/// changes so far.
pub proof fn a_turn_ends_by_what_was_received(
    waited: Result<Ready, Error>,
    notified: Option<Result<Option<Span>, Error>>,
    answer: Option<Result<Datagram, Error>>,
    order: HostOrder,
)
    ensures
        forall|dump: &mut Dump, turn: Turn| #[trigger]
            call_ensures(Dump::turn, (dump, waited, notified, answer, &order), turn) ==> {
                let lost = waited is Err || waited->Ok_0.notification_failed || (
                !waited->Ok_0.dump_failed && notified is Some && notified->0 is Err);
                let told = notified is Some && notified->0 is Ok && notified->0->Ok_0 is Some;
                let read = crate::netlink::answer_in(
                    answer->0->Ok_0.bytes@,
                    answer->0->Ok_0.from_kernel,
                    answer->0->Ok_0.truncated,
                    order.is_high_first(),
                    dump.sequence,
                    dump.total as int,
                );
                let failed = waited->Ok_0.dump_failed || (answer is Some && (answer->0 is Err
                    || read is Err));
                &&& (turn is Failed && turn->Failed_0 is Lost) <==> lost
                &&& (turn is Failed && turn->Failed_0 is Ordinary) <==> !lost && failed
                &&& turn is Complete <==> !lost && !failed && answer is Some && read->Ok_0.0
                &&& (turn matches Turn::Failed(AcquisitionError::Lost { error, events })
                    ==> events == dump.events)
                &&& (turn matches Turn::Failed(AcquisitionError::Ordinary { error, events }) ==> {
                    &&& waited->Ok_0.dump_failed || !told ==> events == dump.events
                    &&& !waited->Ok_0.dump_failed && told ==> events.last == notified->0->Ok_0
                        && (dump.events.first is Some ==> events.first == dump.events.first) && (
                    dump.events.first is None ==> events.first == notified->0->Ok_0)
                })
                &&& !(turn is Failed) && told ==> final(dump).events.last == notified->0->Ok_0
                &&& !(turn is Failed) && !told ==> final(dump).events == dump.events
            },
{
}

/// What a wait during an inventory ended with, and whether a request was sent as a
/// whole, is judged by what was reported, trouble with notifications first.
pub proof fn reports_of_sockets_are_judged(
    ready: Ready,
    events: EventBatch,
    checked: Result<(), AcquisitionError>,
    waited: Result<Option<WaitOutcome>, Error>,
    written: usize,
    length: usize,
    sent: Result<(), Error>,
)
    requires
        call_ensures(crate::netlink::check_ready, (&ready, events), checked),
        call_ensures(crate::netlink::check_wait, (&ready,), waited),
        call_ensures(crate::netlink::check_sent, (written, length), sent),
    ensures
        checked is Ok <==> !ready.notification_failed && !ready.dump_failed,
        (checked is Err && checked->Err_0 is Lost) <==> ready.notification_failed,
        ready.shutdown <==> waited == Ok::<Option<WaitOutcome>, Error>(
            Some(WaitOutcome::Shutdown),
        ),
        waited is Err <==> !ready.shutdown && ready.notification_failed,
        waited == Ok::<Option<WaitOutcome>, Error>(Some(WaitOutcome::Deadline)) <==> !ready.shutdown
            && !ready.notification_failed && !ready.notification,
        waited == Ok::<Option<WaitOutcome>, Error>(None) <==> !ready.shutdown && !ready.notification_failed
            && ready.notification,
        sent is Ok <==> written == length,
{
}

/// A wait is long enough for its span, and not a millisecond longer than it has to be,
/// as far as a wait can be counted.
pub proof fn a_wait_is_rounded_up_to_milliseconds(remaining: Span, millis: i32)
    requires
        call_ensures(crate::netlink::poll_millis, (remaining,), millis),
    ensures
        remaining.nanos <= 2147483647 * 1_000_000 ==> millis * 1_000_000 >= remaining.nanos
            && millis * 1_000_000 < remaining.nanos + 1_000_000,
        remaining.nanos > 2147483647 * 1_000_000 ==> millis == 2147483647,
{
}

/// Something is ready on a socket with something or an error to be received, and a
/// socket has failed whose other end is gone or that is not open; the marks are those of
/// the system.
pub proof fn marks_tell_what_is_ready(notification: i16, dump: i16, ready: Ready)
    requires
        call_ensures(crate::netlink::readiness, (notification, dump), ready),
    ensures
        ready.notification <==> notification & 1 != 0 || notification & 8 != 0,
        ready.dump <==> dump & 1 != 0 || dump & 8 != 0,
        ready.notification_failed <==> notification & 16 != 0 || notification & 32 != 0,
        ready.dump_failed <==> dump & 16 != 0 || dump & 32 != 0,
        !ready.shutdown,
{
}

/// A datagram is what was received of it; it is truncated exactly if it was longer than
/// its buffer, and comes from the kernel exactly if its sender has the number zero.
pub proof fn a_datagram_is_what_was_received(
    buffer: Vec<u8>,
    size: usize,
    sender: u32,
    datagram: Datagram,
)
    requires
        call_ensures(Datagram::received, (buffer, size, sender), datagram),
    ensures
        datagram.truncated <==> size > buffer@.len(),
        datagram.from_kernel <==> sender == 0,
        size <= buffer@.len() ==> datagram.bytes@.len() == size,
        size > buffer@.len() ==> datagram.bytes@.len() == buffer@.len(),
        forall|i: int| 0 <= i < datagram.bytes@.len() ==> #[trigger] datagram.bytes@[i] == buffer@[i],
{
}

/// The limits are those that were decided on: three seconds for an inventory, and the
/// group of notifications on interfaces.
pub proof fn an_inventory_has_three_seconds(begun: Span, now: Span)
    requires
        begun.nanos <= 1_000_000_000_000_000_000_000,
    ensures
        crate::netlink::time_left(begun, now).nanos == if now.nanos >= begun.nanos + 3_000_000_000 {
            0int
        } else {
            begun.nanos + 3_000_000_000 - now.nanos
        },
        crate::netlink::LINK_MULTICAST_GROUP == 1,
        crate::netlink::NETLINK_HEADER_LENGTH == 16,
{
}

/// The sum of two times in nanoseconds, or the longest span.
pub open spec fn plus(a: int, b: int) -> int {
    if a + b <= 18_446_744_073_709_551_615_999_999_999 {
        a + b
    } else {
        18_446_744_073_709_551_615_999_999_999
    }
}

/// Nothing has happened before the first cycle: nothing is subscribed, an inventory is
/// wanted, nothing has to be waited for, and both delays are one second.
pub proof fn nothing_has_happened_at_first(reconcile: Span, state: State)
    requires
        call_ensures(State::new, (reconcile,), state),
    ensures
        state.reconcile == reconcile,
        !state.subscribed,
        state.needs_inventory,
        state.retry_not_before is None,
        state.event_deadline is None,
        state.last_event is None,
        state.last_success is None,
        state.failure_delay.nanos == 1_000_000_000,
        state.event_delay.nanos == 1_000_000_000,
{
}

/// A delay is followed by one twice as long, but no longer than half a minute.
pub proof fn a_delay_is_doubled_up_to_half_a_minute(delay: Span, next: Span)
    requires
        call_ensures(crate::monitor::next_delay, (delay,), next),
    ensures
        2 * delay.nanos <= 30_000_000_000 ==> next.nanos == 2 * delay.nanos,
        2 * delay.nanos > 30_000_000_000 ==> next.nanos == 30_000_000_000,
{
}

/// A retry may be made once its time has come. An inventory is to be taken then, and
/// only then, if one is missing, if the time has come for one after changes, or if the
/// last one is as old as it may be. A subscription is to be made then if there is none.
pub proof fn something_is_due_when_its_time_has_come(
    state: State,
    now: Span,
    retry: bool,
    acquisition: bool,
    subscription: bool,
)
    requires
        call_ensures(State::retry_ready, (&state, now), retry),
        call_ensures(State::acquisition_ready, (&state, now), acquisition),
        call_ensures(State::subscription_ready, (&state, now), subscription),
    ensures
        retry <==> state.retry_not_before is None || state.retry_not_before->0.nanos <= now.nanos,
        acquisition <==> retry && (state.needs_inventory || (state.event_deadline is Some
            && state.event_deadline->0.nanos <= now.nanos) || (state.last_success is Some && plus(
            state.last_success->0.nanos as int,
            state.reconcile.nanos as int,
        ) <= now.nanos)),
        subscription <==> retry && !state.subscribed,
{
}

/// A change is answered after the delay, counted from the first change that waits; and
/// the delay is one second again after a minute without a change, or at first.
pub proof fn a_change_is_answered_after_its_delay(at: Span)
    ensures
        forall|state: &mut State, done: ()| #[trigger]
            call_ensures(State::record_event, (state, at), done) ==> {
                &&& final(state).last_event == Some(at)
                &&& state.last_event is None ==> final(state).event_delay.nanos == 1_000_000_000
                &&& state.last_event matches Some(last) ==> final(state).event_delay.nanos == if at.nanos
                    >= last.nanos + 60_000_000_000 {
                    1_000_000_000
                } else {
                    state.event_delay.nanos
                }
                &&& state.event_deadline is Some ==> final(state).event_deadline
                    == state.event_deadline
                &&& state.event_deadline is None ==> (final(state).event_deadline matches Some(due)
                    && due.nanos == plus(at.nanos as int, final(state).event_delay.nanos as int))
                &&& *final(state) == (State {
                    last_event: final(state).last_event,
                    event_delay: final(state).event_delay,
                    event_deadline: final(state).event_deadline,
                    ..*state
                })
            },
{
}

/// An inventory that is started answers all that waited for one; if that was a change,
/// the next changes wait twice as long, but no longer than half a minute.
pub proof fn a_started_inventory_answers_the_changes(now: Span)
    ensures
        forall|state: &mut State, done: ()| #[trigger]
            call_ensures(State::start_acquisition, (state,), done) ==> {
                &&& !final(state).needs_inventory
                &&& final(state).event_deadline is None
                &&& state.event_deadline is None ==> final(state).event_delay == state.event_delay
                &&& state.event_deadline is Some ==> final(state).event_delay.nanos == if 2
                    * state.event_delay.nanos <= 30_000_000_000 {
                    2 * state.event_delay.nanos
                } else {
                    30_000_000_000
                }
                &&& *final(state) == (State {
                    needs_inventory: false,
                    event_deadline: None,
                    event_delay: final(state).event_delay,
                    ..*state
                })
            },
{
}

/// A failure calls for another attempt after the delay, and doubles the delay up to half
/// a minute; it changes nothing else.
pub proof fn a_failure_is_retried_after_its_delay(now: Span)
    ensures
        forall|state: &mut State, done: ()| #[trigger]
            call_ensures(State::fail, (state, now), done) ==> fails(*state, *final(state), now),
{
}

/// Whether one state follows another by a failure.
pub open spec fn fails(before: State, after: State, now: Span) -> bool {
    &&& after.needs_inventory
    &&& after.retry_not_before matches Some(due) && due.nanos == plus(
        now.nanos as int,
        before.failure_delay.nanos as int,
    )
    &&& after.failure_delay.nanos == if 2 * before.failure_delay.nanos <= 30_000_000_000 {
        2 * before.failure_delay.nanos
    } else {
        30_000_000_000
    }
    &&& after == (State {
        needs_inventory: true,
        retry_not_before: after.retry_not_before,
        failure_delay: after.failure_delay,
        ..before
    })
}

/// A loss is a failure that ends the subscription and the run of notifications, and
/// withdraws the table.
pub proof fn a_loss_ends_the_subscription_and_withdraws_the_table(now: Span)
    ensures
        forall|state: &mut State, change: TableChange| #[trigger]
            call_ensures(State::lose_continuity, (state, now), change) ==> {
                &&& change is Withdraw
                &&& final(state).continuity != state.continuity
                &&& state.continuity < u64::MAX ==> final(state).continuity == state.continuity + 1
                &&& !final(state).subscribed
                &&& fails(
                    State {
                        continuity: final(state).continuity,
                        subscribed: false,
                        ..*state
                    },
                    *final(state),
                    now,
                )
            },
{
}

/// Whether a batch of changes is one that can be: none, or a first and a last one in
/// order and less than a minute apart.
pub open spec fn can_be(batch: EventBatch) -> bool {
    ||| batch.first is None && batch.last is None
    ||| batch.first is Some && batch.last is Some && batch.first->0.nanos <= batch.last->0.nanos
        && batch.last->0.nanos < batch.first->0.nanos + 60_000_000_000
}

/// A batch of changes is noted like its first and its last change one after the other;
/// one that cannot be is refused and changes nothing, and so is it after a failure.
pub proof fn a_batch_is_noted_as_its_first_and_its_last_change(batch: EventBatch)
    ensures
        forall|state: &mut State, noted: Result<(), Error>| #[trigger]
            call_ensures(State::record_batch, (state, batch), noted) ==> {
                &&& noted is Ok <==> can_be(batch)
                &&& *final(state) == if can_be(batch) && batch.first is Some {
                    if batch.first == batch.last {
                        state.changed(batch.first->0)
                    } else {
                        state.changed(batch.first->0).changed(batch.last->0)
                    }
                } else {
                    *state
                }
            },
        forall|state: &mut State, refused: Option<Error>| #[trigger]
            call_ensures(State::retain_failed_events, (state, batch), refused) ==> {
                &&& refused is None <==> can_be(batch)
                &&& *final(state) == if can_be(batch) && batch.first is Some {
                    if batch.first == batch.last {
                        state.changed(batch.first->0)
                    } else {
                        state.changed(batch.first->0).changed(batch.last->0)
                    }
                } else {
                    *state
                }
            },
        forall|state: &mut State, at: Span, done: ()| #[trigger]
            call_ensures(State::record_event, (state, at), done) ==> *final(state) == state.changed(
                at,
            ),
{
}

/// The next thing to do is an inventory for the present run of notifications exactly if
/// there is a subscription and an inventory is to be taken; and else to wait for exactly
/// as long as nothing has to be done.
pub proof fn an_inventory_or_a_wait_is_next(now: Span)
    ensures
        forall|state: &mut State, task: Task| #[trigger]
            call_ensures(State::next_task, (state, now), task) ==> {
                &&& task is Acquire <==> state.subscribed && state.may_acquire(now)
                &&& task matches Task::Acquire(attempt) ==> attempt.continuity == state.continuity
                    && *final(state) == state.acquiring()
                &&& task matches Task::Wait(timeout) ==> *final(state) == *state && (state.steady()
                    ==> {
                    &&& state.due(Span { nanos: (now.nanos + timeout.nanos) as u128 })
                    &&& forall|at: Span|
                        now.nanos <= at.nanos < now.nanos + timeout.nanos ==> !#[trigger] state.due(
                            at,
                        )
                })
            },
{
    assert forall|state: &mut State, task: Task| #[trigger]
        call_ensures(State::next_task, (state, now), task) && task is Wait
            && state.steady() implies {
        let timeout = task->Wait_0;
        &&& state.due(Span { nanos: (now.nanos + timeout.nanos) as u128 })
        &&& forall|at: Span|
            now.nanos <= at.nanos < now.nanos + timeout.nanos ==> !#[trigger] state.due(at)
    } by {
        let timeout = task->Wait_0;
        let end = state.deadline(now);
        crate::monitor::a_wait_ends_when_something_is_due(*state, now, now);
        assert(end.nanos == now.nanos + timeout.nanos);
        assert(Span { nanos: (now.nanos + timeout.nanos) as u128 } == end);
        assert forall|at: Span|
            now.nanos <= at.nanos < now.nanos + timeout.nanos implies !#[trigger] state.due(at) by {
            crate::monitor::a_wait_ends_when_something_is_due(*state, now, at);
        }
    }
}

/// The state with the changes of a batch noted, if the batch can be.
pub open spec fn with_changes(state: State, batch: EventBatch) -> State {
    if can_be(batch) && batch.first is Some {
        if batch.first == batch.last {
            state.changed(batch.first->0)
        } else {
            state.changed(batch.first->0).changed(batch.last->0)
        }
    } else {
        state
    }
}

/// Whether an inventory is one that can be accepted: it belongs to the present run of
/// notifications, its changes can be, and its links are consistent.
pub open spec fn acceptable(state: State, inventory: Inventory) -> bool {
    &&& inventory.attempt.continuity == state.continuity
    &&& can_be(inventory.events)
    &&& crate::link::refusal(inventory.links@) is None
}

/// An inventory is accepted exactly if it belongs to the present run of notifications,
/// with changes that can be and consistent links. It ends all retries then, and its age
/// is counted from now on. Its changes are noted unless it does not belong there.
pub proof fn an_inventory_is_accepted_if_it_is_present(inventory: Inventory, now: Span)
    ensures
        forall|state: &mut State, accepted: Result<Topology, Error>| #[trigger]
            call_ensures(State::accept_inventory, (state, inventory, now), accepted) ==> {
                &&& accepted is Ok <==> acceptable(*state, inventory)
                &&& accepted is Ok ==> *final(state) == (State {
                    retry_not_before: None,
                    failure_delay: final(state).failure_delay,
                    last_success: Some(now),
                    ..with_changes(*state, inventory.events)
                }) && final(state).failure_delay.nanos == 1_000_000_000
                &&& accepted is Err ==> *final(state) == if inventory.attempt.continuity
                    == state.continuity {
                    with_changes(*state, inventory.events)
                } else {
                    *state
                }
            },
{
}

/// After an attempt to subscribe there is a subscription, and an inventory is wanted; or
/// the failure is retried and reported.
pub proof fn a_subscription_calls_for_an_inventory(made: Result<(), Error>, failed: Span)
    ensures
        forall|state: &mut State, failures: Vec<Failure>| #[trigger]
            call_ensures(State::after_subscription, (state, made, failed), failures) ==> match made {
                Ok(()) => {
                    &&& *final(state) == (State { subscribed: true, needs_inventory: true, ..*state })
                    &&& failures@.len() == 0
                },
                Err(error) => {
                    &&& fails(*state, *final(state), failed)
                    &&& failures@.len() == 1
                    &&& failures@[0] is Subscription
                },
            },
{
    assert forall|state: &mut State, failures: Vec<Failure>| #[trigger]
        call_ensures(State::after_subscription, (state, made, failed), failures) implies (made is Ok
        ==> failures@.len() == 0) && (made is Err ==> failures@.len() == 1 && failures@[0]
        is Subscription) by {
        let views = crate::monitor::failure_views(failures@);
        assert(views.len() == failures@.len());
        if made is Err {
            assert(views[0] is Subscription);
            assert(views[0] == failures@[0]@);
        }
    }
}

/// After an inventory the table is replaced exactly if it is accepted, by the table of
/// its links; it is withdrawn exactly if notifications were lost, which ends the
/// subscription; it is kept in all other cases, and the failure is retried. The changes
/// that came meanwhile are noted in any case.
pub proof fn an_inventory_decides_on_the_table(
    taken: Result<Inventory, AcquisitionError>,
    ended: Span,
    failed: Span,
)
    ensures
        forall|state: &mut State, end: CycleEnd| #[trigger]
            call_ensures(State::after_inventory, (state, taken, ended, failed), end) ==> {
                &&& !end.stop
                &&& match taken {
                    Ok(inventory) => if acceptable(*state, inventory) {
                        &&& end.change matches TableChange::Publish(mib) && crate::monitor::serves(
                            mib,
                            inventory.links@,
                        )
                        &&& end.failures@.len() == 0
                        &&& final(state).last_success == Some(ended)
                        &&& final(state).retry_not_before is None
                        &&& final(state).failure_delay.nanos == 1_000_000_000
                        &&& final(state).continuity == state.continuity
                        &&& final(state).subscribed == state.subscribed
                        &&& final(state).event_deadline == with_changes(
                            *state,
                            inventory.events,
                        ).event_deadline
                    } else {
                        &&& end.change is Keep
                        &&& end.failures@.len() == 1 && end.failures@[0] is Inventory
                        &&& fails(
                            if inventory.attempt.continuity == state.continuity {
                                with_changes(*state, inventory.events)
                            } else {
                                *state
                            },
                            *final(state),
                            failed,
                        )
                    },
                    Err(AcquisitionError::Ordinary { error, events }) => {
                        &&& end.change is Keep
                        &&& end.failures@.len() > 0 && end.failures@.last() is Acquisition
                        &&& fails(with_changes(*state, events), *final(state), failed)
                    },
                    Err(AcquisitionError::Lost { error, events }) => {
                        &&& end.change is Withdraw
                        &&& end.failures@.len() > 0 && end.failures@.last() is Continuity
                        &&& !final(state).subscribed
                        &&& final(state).continuity != state.continuity
                        &&& fails(
                            State {
                                subscribed: false,
                                continuity: final(state).continuity,
                                ..with_changes(*state, events)
                            },
                            *final(state),
                            failed,
                        )
                    },
                }
            },
{
    assert forall|state: &mut State, end: CycleEnd| #[trigger]
        call_ensures(State::after_inventory, (state, taken, ended, failed), end) implies {
        let views = crate::monitor::failure_views(end.failures@);
        &&& views.len() == end.failures@.len()
        &&& end.failures@.len() > 0 ==> views[0] == end.failures@[0]@ && views.last()
            == end.failures@.last()@
    } by {}
}

/// The table of accepted links has a row without a zero exactly if a link says so, and a
/// row with a zero exactly if a link has no neighbour on that side.
pub proof fn a_served_table_has_the_rows_that_its_links_say(
    mib: Mib,
    links: Seq<ObservedLink>,
    row: Pair,
    index: u32,
)
    requires
        crate::monitor::serves(mib, links),
        crate::link::refusal(links) is None,
        row.0 != 0 && row.1 != 0,
        index != 0,
    ensures
        mib.rows().contains(row) <==> exists|i: int|
            0 <= i < links.len() && #[trigger] crate::link::says(links, i, row),
        mib.rows().contains((0, index)) <==> (exists|i: int|
            0 <= i < links.len() && (#[trigger] links[i]).index == index) && forall|i: int, p: Pair|
            0 <= i < links.len() && p.1 == index ==> !(#[trigger] crate::link::says(links, i, p)),
        mib.rows().contains((index, 0)) <==> (exists|i: int|
            0 <= i < links.len() && (#[trigger] links[i]).index == index) && forall|i: int, p: Pair|
            0 <= i < links.len() && p.0 == index ==> !(#[trigger] crate::link::says(links, i, p)),
        !mib.rows().contains((0, 0)),
{
    crate::monitor::the_table_of_links_has_the_rows_that_they_say(links, row, index);
    crate::link::an_index_is_known_exactly_if_a_link_has_it(links, index);
    assert(mib.rows().contains(row) <==> crate::monitor::link_row(links, row));
    assert(mib.rows().contains((0u32, index)) <==> crate::monitor::link_row(links, (0u32, index)));
    assert(mib.rows().contains((index, 0u32)) <==> crate::monitor::link_row(links, (index, 0u32)));
    assert(mib.rows().contains((0u32, 0u32)) <==> crate::monitor::link_row(links, (0u32, 0u32)));
}

/// After a wait nothing changes at its end in time; a change is noted; the end of all
/// stops; and a failure is a loss, which withdraws the table and ends the subscription.
pub proof fn a_failed_wait_is_a_loss(waited: Result<WaitOutcome, Error>, failed: Span)
    ensures
        forall|state: &mut State, end: CycleEnd| #[trigger]
            call_ensures(State::after_wait, (state, waited, failed), end) ==> {
                &&& end.stop <==> waited == Ok::<WaitOutcome, Error>(WaitOutcome::Shutdown)
                &&& waited is Err <==> end.change is Withdraw
                &&& waited is Ok <==> end.change is Keep
                &&& match waited {
                    Ok(WaitOutcome::LinkChanged(at)) => *final(state) == state.changed(at),
                    Ok(_) => *final(state) == *state,
                    Err(error) => {
                        &&& !final(state).subscribed
                        &&& final(state).continuity != state.continuity
                        &&& fails(
                            State {
                                subscribed: false,
                                continuity: final(state).continuity,
                                ..*state
                            },
                            *final(state),
                            failed,
                        )
                    },
                }
                &&& waited is Ok ==> end.failures@.len() == 0
                &&& waited is Err ==> end.failures@.len() == 1 && end.failures@[0] is Notification
            },
{
    assert forall|state: &mut State, end: CycleEnd| #[trigger]
        call_ensures(State::after_wait, (state, waited, failed), end) implies {
        let views = crate::monitor::failure_views(end.failures@);
        &&& views.len() == end.failures@.len()
        &&& end.failures@.len() > 0 ==> views[0] == end.failures@[0]@
    } by {}
}

/// A reader gives the table that was published last, and none if it was withdrawn since
/// or none was.
pub proof fn a_reader_gives_what_was_published_last(mib: Mib, change: TableChange)
    ensures
        forall|reader: &mut TableReader, done: ()| #[trigger]
            call_ensures(TableReader::publish, (reader, mib), done) ==> final(reader).current()
                == Some(mib),
        forall|reader: &mut TableReader, done: ()| #[trigger]
            call_ensures(TableReader::unavailable, (reader,), done) ==> final(reader).current()
                is None,
        forall|reader: &mut TableReader, done: ()| #[trigger]
            call_ensures(TableReader::apply, (reader, change), done) ==> match change {
                TableChange::Keep => final(reader).current() == reader.current(),
                TableChange::Publish(mib) => final(reader).current() == Some(mib),
                TableChange::Withdraw => final(reader).current() is None,
            },
        forall|reader: TableReader| #[trigger]
            call_ensures(crate::monitor::publication, (), reader) ==> reader.current() is None,
        forall|reader: TableReader, copy: TableReader| #[trigger]
            call_ensures(TableReader::copy, (&reader,), copy) ==> copy.current() == reader.current(),
        forall|reader: TableReader, table: Option<std::sync::Arc<Mib>>| #[trigger]
            call_ensures(TableReader::snapshot, (&reader,), table) ==> match table {
                Some(table) => reader.current() == Some(*table),
                None => reader.current() is None,
            },
{
}

/// The first part of a cycle asks the source for the time, and for a subscription exactly
/// if there is none and a retry may be made; what comes of it decides.
pub proof fn a_cycle_begins_with_a_subscription_if_there_is_none<A: Acquisition>()
    ensures
        forall|state: &mut State, source: &mut A, failures: Vec<Failure>| #[trigger]
            call_ensures(crate::monitor::begin_cycle::<A>, (state, source), failures) ==> exists|
                started: Span,
            | #[trigger]
                call_ensures(A::now, (&*source,), started) && if !state.subscribed && (
                state.retry_not_before is None || state.retry_not_before->0.nanos
                    <= started.nanos) {
                    exists|asked: &mut A, made: Result<(), Error>|
                        {
                            &&& #[trigger] call_ensures(A::subscribe, (asked,), made)
                            &&& *asked == *source
                            &&& *final(asked) == *final(source)
                            &&& made is Ok ==> *final(state) == (State {
                                subscribed: true,
                                needs_inventory: true,
                                ..*state
                            })
                            &&& made is Err ==> exists|failed: Span| #[trigger]
                                call_ensures(A::now, (&*final(source),), failed) && fails(
                                    *state,
                                    *final(state),
                                    failed,
                                )
                        }
                } else {
                    *final(state) == *state && *final(source) == *source
                },
{
}

/// The second part of a cycle asks the source for an inventory for the present run of
/// notifications exactly if there is a subscription and one is due, and else to wait;
/// a failed wait and a lost inventory withdraw the table, and nothing else does.
pub proof fn a_cycle_ends_with_an_inventory_or_a_wait<A: Acquisition>()
    ensures
        forall|state: &mut State, source: &mut A, end: CycleEnd| #[trigger]
            call_ensures(crate::monitor::finish_cycle::<A>, (state, source), end) ==> exists|
                ready: Span,
            | #[trigger]
                call_ensures(A::now, (&*source,), ready) && if state.subscribed
                    && state.may_acquire(ready) {
                    exists|asked: &mut A, taken: Result<Inventory, AcquisitionError>|
                        {
                            &&& #[trigger] call_ensures(
                                A::inventory,
                                (asked, Attempt { continuity: state.continuity }),
                                taken,
                            )
                            &&& *asked == *source
                            &&& *final(asked) == *final(source)
                            &&& end.change is Publish <==> taken is Ok && acceptable(
                                state.acquiring(),
                                taken->Ok_0,
                            )
                            &&& end.change is Withdraw <==> taken is Err && taken->Err_0 is Lost
                            &&& final(state).subscribed <==> !(end.change is Withdraw)
                        }
                } else {
                    exists|asked: &mut A, waited: Result<WaitOutcome, Error>|
                        {
                            &&& #[trigger] call_ensures(
                                A::wait,
                                (asked, crate::time::remainder(state.deadline(ready), ready)),
                                waited,
                            )
                            &&& *asked == *source
                            &&& *final(asked) == *final(source)
                            &&& end.change is Withdraw <==> waited is Err
                            &&& !(end.change is Publish)
                            &&& end.stop <==> waited == Ok::<WaitOutcome, Error>(
                                WaitOutcome::Shutdown,
                            )
                        }
                },
{
}

/// The number of a request follows that of the one before it, and is never zero.
pub proof fn requests_are_numbered_without_zero<I: DatagramIo>()
    ensures
        forall|source: &mut NetlinkSource<I>, number: u32| #[trigger]
            call_ensures(NetlinkSource::<I>::next_sequence, (source,), number) ==> {
                &&& number != 0
                &&& number != source.sequence
                &&& source.sequence < u32::MAX ==> number == source.sequence + 1
                &&& *final(source) == (NetlinkSource { sequence: number, ..*source })
            },
{
}

/// A notification that is received tells when it came exactly if it tells of a change, and
/// nothing if it is read without telling of one; it is received from the socket of the
/// subscription, without which there is none.
pub proof fn a_received_notification_tells_when_a_change_came<I: DatagramIo>()
    ensures
        forall|source: &mut NetlinkSource<I>, received: Result<Option<Span>, Error>| #[trigger]
            call_ensures(NetlinkSource::<I>::receive_notification, (source,), received) ==> {
                &&& final(source).notification == source.notification
                &&& final(source).sequence == source.sequence
                &&& source.notification is None ==> received is Err
                &&& source.notification matches Some(socket) ==> exists|
                    io: &mut I,
                    datagram: Result<Datagram, Error>,
                |
                    {
                        &&& #[trigger] call_ensures(I::receive, (io, &socket), datagram)
                        &&& *io == source.io
                        &&& datagram is Err ==> received is Err
                        &&& datagram matches Ok(datagram) ==> {
                            let read = crate::netlink::change_in(
                                datagram.bytes@,
                                datagram.from_kernel,
                                datagram.truncated,
                                source.order.is_high_first(),
                            );
                            &&& received is Ok <==> read is Ok
                            &&& received is Ok ==> (received->Ok_0 is Some <==> read->Ok_0)
                        }
                    }
            },
{
}

/// To subscribe is to open a socket for the group of notifications on interfaces, which is
/// group 1; the subscription is that socket, and a failure to open it changes nothing.
pub proof fn to_subscribe_is_to_open_a_socket<I: DatagramIo>()
    ensures
        forall|source: &mut NetlinkSource<I>, made: Result<(), Error>| #[trigger]
            call_ensures(
                <NetlinkSource<I> as Acquisition>::subscribe,
                (source,),
                made,
            ) ==> exists|io: &mut I, opened: Result<I::Socket, Error>|
                {
                    &&& #[trigger] call_ensures(I::open, (io, 1u32), opened)
                    &&& *io == source.io
                    &&& made is Ok <==> opened is Ok
                    &&& opened matches Ok(socket) ==> final(source).notification == Some(socket)
                    &&& opened is Err ==> final(source).notification == source.notification
                },
{
}

/// A wait without a subscription ends in time. One with a subscription waits for its
/// socket for as long as it may; a failure ends the subscription, and only a failure
/// does.
pub proof fn a_wait_fails_only_with_the_notifications<I: DatagramIo>(timeout: Span)
    ensures
        forall|source: &mut NetlinkSource<I>, waited: Result<WaitOutcome, Error>| #[trigger]
            call_ensures(
                <NetlinkSource<I> as Acquisition>::wait,
                (source, timeout),
                waited,
            ) ==> {
                &&& waited is Ok ==> final(source).notification == source.notification
                &&& waited is Err ==> final(source).notification is None
                &&& source.notification is None ==> waited == Ok::<WaitOutcome, Error>(
                    WaitOutcome::Deadline,
                )
                &&& source.notification matches Some(socket) ==> exists|
                    io: &mut I,
                    ended: Result<Ready, Error>,
                |
                    {
                        &&& #[trigger] call_ensures(
                            I::wait,
                            (io, &socket, None, timeout),
                            ended,
                        )
                        &&& *io == source.io
                        &&& ended is Err ==> waited is Err
                        &&& ended matches Ok(ready) ==> {
                            &&& ready.shutdown <==> waited == Ok::<WaitOutcome, Error>(
                                WaitOutcome::Shutdown,
                            )
                            &&& !ready.shutdown && ready.notification_failed ==> waited is Err
                            &&& !ready.shutdown && !ready.notification_failed
                                && !ready.notification ==> waited == Ok::<WaitOutcome, Error>(
                                WaitOutcome::Deadline,
                            )
                            &&& waited is Ok && waited->Ok_0 is LinkChanged ==> ready.notification
                        }
                    }
            },
{
}

/// During a turn of an inventory a notification is received exactly if one is ready and no
/// socket has failed, and before an answer; an answer exactly if one is ready besides and
/// the notification has not failed.
pub proof fn a_turn_receives_what_is_ready<I: DatagramIo>(socket: I::Socket, left: Span)
    ensures
        forall|source: &mut NetlinkSource<I>, received: Received| #[trigger]
            call_ensures(NetlinkSource::<I>::exchange, (source, &socket, left), received) ==> {
                let sound = received.waited is Ok && !received.waited->Ok_0.notification_failed
                    && !received.waited->Ok_0.dump_failed;
                &&& final(source).notification == source.notification
                &&& final(source).sequence == source.sequence
                &&& received.notified is Some <==> sound && received.waited->Ok_0.notification
                &&& received.answer is Some <==> sound && received.waited->Ok_0.dump && !(
                received.notified is Some && received.notified->0 is Err)
                &&& exists|io: &mut I|
                    {
                        &&& #[trigger] call_ensures(
                            I::wait,
                            (io, &source.notification->0, Some(&socket), left),
                            received.waited,
                        )
                        &&& *io == source.io
                    }
            },
{
}

/// An inventory that succeeds is that of the attempt, and keeps the subscription. Its
/// links are those that the answers told of, in their order, and its changes the first
/// and the last that notifications told of; the last answer ended it. One that fails ends
/// the subscription exactly if it is a loss.
pub proof fn an_inventory_is_what_its_answers_tell<I: DatagramIo>(attempt: Attempt)
    ensures
        forall|
            source: &mut NetlinkSource<I>,
            taken: Result<Inventory, AcquisitionError>,
        | #[trigger]
            call_ensures(
                <NetlinkSource<I> as Acquisition>::inventory,
                (source, attempt),
                taken,
            ) ==> {
                &&& taken is Err && taken->Err_0 is Lost ==> final(source).notification is None
                &&& !(taken is Err && taken->Err_0 is Lost) ==> final(source).notification
                    == source.notification
                &&& taken matches Ok(inventory) ==> {
                    &&& inventory.attempt == attempt
                    &&& source.notification is Some
                    &&& final(source).sequence == crate::netlink::following_sequence(
                        source.sequence,
                    )
                    &&& exists|trace: Seq<Exchange<I>>| #[trigger]
                        told_by(
                            trace,
                            source.order.is_high_first(),
                            final(source).sequence,
                            inventory,
                        )
                }
            },
{
    assert forall|source: &mut NetlinkSource<I>, taken: Result<Inventory, AcquisitionError>|
        #[trigger]
        call_ensures(
            <NetlinkSource<I> as Acquisition>::inventory,
            (source, attempt),
            taken,
        ) && taken is Ok implies source.notification is Some && exists|trace: Seq<Exchange<I>>|
        #[trigger]
        told_by(trace, source.order.is_high_first(), final(source).sequence, taken->Ok_0) by {
        let high_first = source.order.is_high_first();
        let sequence = final(source).sequence;
        let subscribed = source.notification is Some;
        let last = final(source).io;
        assert forall|begun: Span, trace: Seq<Exchange<I>>| #[trigger]
            crate::netlink::concludes(
                begun,
                trace,
                subscribed,
                high_first,
                sequence,
                last,
                attempt,
                taken,
            ) implies told_by(trace, high_first, sequence, taken->Ok_0) && trace.len() > 0 by {
            let n = trace.len() as int;
            crate::netlink::only_answers_tell_of_links(trace, n, high_first, sequence);
            crate::netlink::the_first_and_the_last_change_come_with_an_inventory(
                trace,
                n,
                high_first,
                sequence,
            );
        }
    }
}

/// Whether an inventory is what was received in some turns.
pub open spec fn told_by<I>(
    trace: Seq<Exchange<I>>,
    high_first: bool,
    sequence: u32,
    inventory: Inventory,
) -> bool {
    &&& trace.len() > 0
    &&& crate::netlink::link_views(inventory.links@) == crate::netlink::links_told(
        trace,
        trace.len() as int,
        high_first,
        sequence,
    )
    &&& inventory.events == crate::netlink::batch_of(
        crate::netlink::told_in(trace, trace.len() as int),
    )
    &&& trace.last().received.answer matches Some(Ok(datagram)) && {
        &&& datagram.from_kernel && !datagram.truncated
        &&& crate::netlink::dump_in(datagram.bytes@, high_first, sequence) matches Ok((ended, found))
            && ended
    }
}

/// What a failed inventory reports is a loss only if a turn was one, or if there was no
/// subscription; to take too long is no loss.
pub proof fn to_take_too_long_is_no_loss<I: DatagramIo>(
    begun: Span,
    trace: Seq<Exchange<I>>,
    high_first: bool,
    sequence: u32,
    io: I,
    attempt: Attempt,
    failure: AcquisitionError,
)
    requires
        crate::netlink::concludes(
            begun,
            trace,
            true,
            high_first,
            sequence,
            io,
            attempt,
            Err(failure),
        ),
        failure is Lost,
    ensures
        trace.len() > 0,
        crate::netlink::turns_in(
            trace,
            trace.len() - 1,
            high_first,
            sequence,
            Turn::Failed(failure),
        ),
{
}

/// A configuration is usable exactly if it has a socket, an interval and a priority.
pub proof fn a_configuration_is_usable_if_nothing_is_empty(
    config: Config,
    valid: Result<(), String>,
    built_in: Config,
)
    requires
        call_ensures(crate::config::validate, (&config,), valid),
        call_ensures(<Config as Default>::default, (), built_in),
    ensures
        valid is Ok <==> config.socket@.len() > 0 && config.reconcile >= 1 && config.priority >= 1,
        config.socket@.len() == 0 ==> (valid matches Err(reason) && reason@
            == "socket must not be empty"@),
        config.socket@.len() > 0 && config.reconcile == 0 ==> (valid matches Err(reason) && reason@
            == "reconcile must be at least 1 second"@),
        config.socket@.len() > 0 && config.reconcile > 0 && config.priority == 0 ==> (
        valid matches Err(reason) && reason@ == "priority must be between 1 and 255"@),
        built_in.socket@ == vstd::utf8::encode_utf8("/var/agentx/master"@),
        built_in.reconcile == 3600,
        built_in.priority == 127,
        built_in.log_level == LogLevel::Info,
{
}

/// Why a file cannot be made use of is said with the file that was to be read.
pub proof fn a_refused_file_is_named(
    path: Option<Vec<u8>>,
    socket: Option<Vec<u8>>,
    default_path: Vec<u8>,
    reason: String,
    absent: Result<Action, String>,
    unreadable: Result<Action, String>,
    invalid: Result<Action, String>,
    shown: Seq<char>,
)
    requires
        call_ensures(
            crate::config::load,
            (Arguments::Run { path, socket }, &default_path, FileOutcome::Absent(reason)),
            absent,
        ),
        call_ensures(
            crate::config::load,
            (Arguments::Run { path, socket }, &default_path, FileOutcome::Unreadable(reason)),
            unreadable,
        ),
        call_ensures(
            crate::config::load,
            (Arguments::Run { path, socket }, &default_path, FileOutcome::Invalid(reason)),
            invalid,
        ),
        shown == crate::text::lossy_text(
            match path {
                Some(path) => path@,
                None => default_path@,
            },
        ),
    ensures
        path is Some ==> (absent matches Err(text) && text@ == "config "@ + shown + ": "@
            + reason@),
        unreadable matches Err(text) && text@ == "config "@ + shown + ": "@ + reason@,
        invalid matches Err(text) && text@ == shown + ": "@ + reason@,
{
}

/// What is said to the service manager, and the file that is read by default, are what
/// was agreed on.
pub proof fn what_was_agreed_on_is_kept()
    ensures
        crate::notify::READY@ == "READY=1"@,
        crate::config::DEFAULT_PATH@ == "/etc/agentx-ifstack.toml"@,
        crate::mib::MAX_BULK_BINDINGS == 4096,
        crate::mib::TABLE@ == seq![1u32, 3, 6, 1, 2, 1, 31, 1, 2],
{
    assert(crate::mib::TABLE@ =~= seq![1u32, 3, 6, 1, 2, 1, 31, 1, 2]);
}

/// An inventory is refused for the first link that cannot be told apart from those before
/// it: for its index, for want of a name, for the index or for the name of another one.
pub proof fn a_link_that_cannot_be_told_apart_is_named(
    links: Vec<ObservedLink>,
    made: Result<Topology, Error>,
    i: int,
    j: int,
)
    requires
        call_ensures(Topology::from_observed, (links,), made),
        0 <= j < i < links@.len() || (i == 0 && j == 0 && links@.len() > 0),
        forall|k: int| 0 <= k < i ==> crate::link::named_and_numbered(#[trigger] links@[k]),
        forall|a: int, b: int|
            #![trigger links@[a], links@[b]]
            0 <= a < b < i ==> links@[a].index != links@[b].index && links@[a].name@
                != links@[b].name@,
    ensures
        links@[i].index == 0 || links@[i].index > 2147483647 ==> (made matches Err(error)
            && error@.message == "interface "@ + crate::text::quoted(links@[i].name@)
            + " has invalid index "@ + crate::text::decimal(links@[i].index as nat)),
        1 <= links@[i].index <= 2147483647 && links@[i].name@.len() == 0 ==> (
        made matches Err(error) && error@.message == "interface at index "@ + crate::text::decimal(
            links@[i].index as nat,
        ) + " has an empty name"@),
        crate::link::named_and_numbered(links@[i]) && j < i && links@[j].index == links@[i].index
            ==> (made matches Err(error) && error@.message == "interface "@ + crate::text::quoted(
            links@[i].name@,
        ) + " duplicates index "@ + crate::text::decimal(links@[i].index as nat)
            + " of interface "@ + crate::text::quoted(links@[j].name@)),
        crate::link::named_and_numbered(links@[i]) && j < i && links@[j].name@ == links@[i].name@
            && (forall|k: int| 0 <= k < i ==> (#[trigger] links@[k]).index != links@[i].index) ==> (
        made matches Err(error) && error@.message == "interface "@ + crate::text::quoted(
            links@[i].name@,
        ) + " (index "@ + crate::text::decimal(links@[i].index as nat) + ")"@
            + " duplicates the name of interface at index "@ + crate::text::decimal(
            links@[j].index as nat,
        )),
{
    crate::link::a_refusal_is_that_of_the_first_fault(links@, i);
    let earlier = links@.take(i);
    assert forall|k: int| 0 <= k < i implies #[trigger] earlier[k] == links@[k] by {}
    if crate::link::known(earlier, links@[i].index) {
        let k = crate::link::position(earlier, links@[i].index);
        assert(links@[k].index == links@[i].index);
        if links@[j].index == links@[i].index && j < i {
            assert(links@[k].index == links@[j].index);
            assert(k == j);
        }
    }
    if j < i && links@[j].index == links@[i].index {
        assert(earlier[j].index == links@[i].index);
        assert(crate::link::known(earlier, links@[i].index));
    }
    if j < i && links@[j].name@ == links@[i].name@ {
        let k = choose|k: int| 0 <= k < i && #[trigger] links@[k].name@ == links@[i].name@;
        assert(links@[k].name@ == links@[j].name@);
        assert(k == j);
    }
}

/// The start of what is said of a link: its name and its index.
pub open spec fn about(link: ObservedLink) -> Seq<char> {
    "interface "@ + crate::text::quoted(link.name@) + " (index "@ + crate::text::decimal(
        link.index as nat,
    ) + ")"@
}

/// Links that can be told apart are refused for the first of them that refers to what it
/// must not: to a controller that is not there, or that it is itself; to no lower link,
/// to one in another namespace, to itself, or to one that is not there.
pub proof fn a_link_that_refers_wrongly_is_named(
    links: Vec<ObservedLink>,
    made: Result<Topology, Error>,
    i: int,
)
    requires
        call_ensures(Topology::from_observed, (links,), made),
        0 <= i < links@.len(),
        forall|k: int|
            0 <= k < links@.len() ==> crate::link::named_and_numbered(#[trigger] links@[k]),
        forall|a: int, b: int|
            #![trigger links@[a], links@[b]]
            0 <= a < b < links@.len() ==> links@[a].index != links@[b].index && links@[a].name@
                != links@[b].name@,
        forall|k: int| 0 <= k < i ==> #[trigger] crate::link::refers_well(links@, k),
    ensures
        links@[i].controller is Some && (forall|j: int|
            0 <= j < links@.len() ==> (#[trigger] links@[j]).index != links@[i].controller->0) ==> (
        made matches Err(error) && error@.message == about(links@[i])
            + " references unknown controller index "@ + crate::text::decimal(
            links@[i].controller->0 as nat,
        )),
        links@[i].controller == Some(links@[i].index) && (links@[i].kind == LinkKind::Bond
            || links@[i].kind == LinkKind::Bridge) ==> (made matches Err(error) && error@.message
            == about(links@[i]) + " references itself as controller"@),
        links@[i].controller is None && (links@[i].kind == LinkKind::Vlan || links@[i].kind
            == LinkKind::MacVlan || links@[i].kind == LinkKind::IpVlan || links@[i].kind
            == LinkKind::MacVtap) ==> match links@[i].lower {
            None => made matches Err(error) && error@.message == about(links@[i])
                + " has no lower sub-layer reference"@,
            Some(lower) => if links@[i].lower_netnsid is Some {
                made matches Err(error) && error@.message == about(links@[i])
                    + " references lower sub-layer index "@ + crate::text::decimal(lower as nat)
                    + " in another network namespace"@
            } else if lower == links@[i].index {
                made matches Err(error) && error@.message == about(links@[i])
                    + " references itself as lower sub-layer"@
            } else {
                (forall|j: int| 0 <= j < links@.len() ==> (#[trigger] links@[j]).index != lower)
                    ==> (made matches Err(error) && error@.message == about(links@[i])
                    + " references unknown lower sub-layer index "@ + crate::text::decimal(
                    lower as nat,
                ))
            },
        },
        links@[i].controller is None && links@[i].kind == LinkKind::Vxlan
            && links@[i].lower_netnsid is None && links@[i].vxlan_lower == Some(links@[i].index)
            ==> (made matches Err(error) && error@.message == about(links@[i])
            + " references itself as lower sub-layer"@),
{
    let all = links@;
    crate::link::a_refusal_is_that_of_the_first_wrong_reference(all, i);
    if let Some(controller) = all[i].controller {
        crate::link::an_index_is_known_exactly_if_a_link_has_it(all, controller);
        if controller == all[i].index {
            assert(all[i].index == controller);
            assert(crate::link::known(all, controller));
            let p = crate::link::position(all, controller);
            assert(all[p].index == all[i].index);
            assert(p == i);
        }
    }
    if let Some(lower) = all[i].lower {
        crate::link::an_index_is_known_exactly_if_a_link_has_it(all, lower);
    }
}

/// The next thing is due after the delay of a failure; at once if something is missing; or
/// when changes are to be answered or the last inventory has its age, whichever is
/// earlier. It is never before now.
pub proof fn the_deadline_is_when_something_is_due(state: State, now: Span, deadline: Span)
    requires
        call_ensures(State::next_deadline, (&state, now), deadline),
    ensures
        deadline.nanos >= now.nanos,
        state.retry_not_before matches Some(retry) ==> deadline.nanos == if retry.nanos > now.nanos {
            retry.nanos
        } else {
            now.nanos
        },
        state.retry_not_before is None && (!state.subscribed || state.needs_inventory)
            ==> deadline == now,
        state.retry_not_before is None && state.subscribed && !state.needs_inventory ==> {
            let age = plus(state.last_success->0.nanos as int, state.reconcile.nanos as int);
            &&& state.last_success is None ==> (state.event_deadline is None ==> deadline == now)
            &&& state.last_success is Some && state.event_deadline is None ==> deadline.nanos
                == if age > now.nanos {
                age
            } else {
                now.nanos as int
            }
            &&& state.last_success is Some && state.event_deadline is Some ==> {
                let event = state.event_deadline->0.nanos as int;
                let first = if event < age {
                    event
                } else {
                    age
                };
                deadline.nanos == if first > now.nanos {
                    first
                } else {
                    now.nanos as int
                }
            }
        },
{
}

/// A cycle asks for a subscription exactly if there is none and a retry may be made, and
/// then, after what came of that, for an inventory or to wait; only a loss withdraws the
/// table, and only an inventory that is acceptable replaces it.
pub proof fn a_cycle_subscribes_and_then_takes_an_inventory_or_waits<A: Acquisition>()
    ensures
        forall|state: &mut State, source: &mut A, end: CycleEnd| #[trigger]
            call_ensures(crate::monitor::cycle::<A>, (state, source), end) ==> exists|
                reported: crate::monitor::Reported,
                between: A,
            |
                {
                    &&& #[trigger] call_ensures(A::now, (&between,), reported.ready)
                    &&& #[trigger] call_ensures(A::now, (&*source,), reported.started)
                    &&& !state.subscribed && state.may_retry(reported.started) ==> exists|
                        asked: &mut A,
                    | #[trigger]
                        call_ensures(A::subscribe, (asked,), reported.made) && *asked == *source
                            && *final(asked) == between
                    &&& state.subscribed || !state.may_retry(reported.started) ==> between
                        == *source
                    &&& {
                        let subscribed = state.subscribed || (state.may_retry(reported.started)
                            && reported.made is Ok);
                        &&& end.change is Publish ==> subscribed && reported.taken is Ok
                            && exists|asked: &mut A, attempt: Attempt| #[trigger]
                            call_ensures(A::inventory, (asked, attempt), reported.taken)
                                && *asked == between && *final(asked) == *final(source)
                                && attempt.continuity == state.continuity
                        &&& !subscribed ==> exists|asked: &mut A, timeout: Span| #[trigger]
                            call_ensures(A::wait, (asked, timeout), reported.waited) && *asked
                                == between && *final(asked) == *final(source)
                        &&& end.stop ==> reported.waited == Ok::<WaitOutcome, Error>(
                            WaitOutcome::Shutdown,
                        )
                    }
                },
{
}

/// An interface is made with what is said of it and nothing else.
pub proof fn a_link_is_made_of_what_is_said(
    index: u32,
    name: &str,
    kind: LinkKind,
    link: ObservedLink,
    plain: ObservedLink,
    other: u32,
    member: ObservedLink,
    above: ObservedLink,
    remote: ObservedLink,
    tunnel: ObservedLink,
)
    requires
        call_ensures(ObservedLink::of_kind, (index, name, kind), link),
        call_ensures(ObservedLink::plain, (index, name), plain),
        call_ensures(ObservedLink::with_controller, (link, other), member),
        call_ensures(ObservedLink::with_lower, (link, other), above),
        call_ensures(ObservedLink::with_remote_lower, (link, other), remote),
        call_ensures(ObservedLink::with_vxlan_lower, (link, other), tunnel),
    ensures
        link.index == index && link.name@ == name@ && link.kind == kind,
        link.controller is None && link.lower is None && link.lower_netnsid is None
            && link.vxlan_lower is None,
        plain.index == index && plain.name@ == name@ && plain.kind == LinkKind::Other,
        member == (ObservedLink { controller: Some(other), ..link }),
        above == (ObservedLink { lower: Some(other), ..link }),
        remote.lower == Some(other) && remote.lower_netnsid is Some,
        tunnel == (ObservedLink { vxlan_lower: Some(other), ..link }),
{
}

/// A slot is filled exactly if it was empty.
pub proof fn a_slot_is_filled_once<T>(value: T, field: &str)
    ensures
        forall|slot: &mut Option<T>, set: Result<(), Error>| #[trigger]
            call_ensures(crate::netlink::set_once::<T>, (slot, value, field), set) ==> {
                &&& set is Ok <==> *slot is None
                &&& *final(slot) == Some(value)
            },
{
}

/// Why the command line makes no sense is said by its first argument that makes none.
pub proof fn the_first_argument_that_makes_no_sense_is_named(
    arguments: Vec<Vec<u8>>,
    parsed: Result<Arguments, String>,
)
    requires
        call_ensures(crate::config::parse_arguments, (&arguments,), parsed),
        arguments@.len() > 0,
    ensures
        arguments@.len() == 1 && arguments@[0]@ == vstd::utf8::encode_utf8("--config"@) ==> (
        parsed matches Err(text) && text@ == "--config requires a path"@),
        arguments@.len() == 1 && arguments@[0]@ == vstd::utf8::encode_utf8("--socket"@) ==> (
        parsed matches Err(text) && text@ == "--socket requires a path"@),
        arguments@[0]@ != vstd::utf8::encode_utf8("--config"@) && arguments@[0]@
            != vstd::utf8::encode_utf8("--socket"@) && arguments@[0]@ != vstd::utf8::encode_utf8(
            "--help"@,
        ) && arguments@[0]@ != vstd::utf8::encode_utf8("-h"@) && arguments@[0]@
            != vstd::utf8::encode_utf8("--version"@) ==> (parsed matches Err(text) && text@
            == "Unknown argument: "@ + crate::text::lossy_text(arguments@[0]@)),
{
    crate::config::lemma_options_differ();
    let views = crate::config::argument_views(arguments@);
    assert(views[0] == arguments@[0]@ && views.len() == arguments@.len());
}

/// The shorter and the longer of two spans are two of them, and milliseconds are counted.
pub proof fn spans_are_compared(
    a: Span,
    b: Span,
    shorter: Span,
    longer: Span,
    zero: bool,
    millis: u64,
    span: Span,
)
    requires
        call_ensures(Span::min, (a, b), shorter),
        call_ensures(Span::max, (a, b), longer),
        call_ensures(Span::is_zero, (a,), zero),
        call_ensures(Span::from_millis, (millis,), span),
    ensures
        shorter.nanos <= a.nanos && shorter.nanos <= b.nanos && (shorter == a || shorter == b),
        longer.nanos >= a.nanos && longer.nanos >= b.nanos && (longer == a || longer == b),
        zero <==> a.nanos == 0,
        span.nanos == millis * 1_000_000,
{
}

/// A link is accepted only if nothing is said twice of it.
pub proof fn nothing_may_be_said_twice(record: LinkRecord, decoded: Result<ObservedLink, Error>)
    requires
        call_ensures(crate::netlink::decode_link, (&record,), decoded),
        decoded is Ok,
    ensures
        !crate::netlink::says_twice(record@.fields, record@.fields.len() as int),
        forall|i: int, a: int, j: int, k: int|
            #![trigger crate::netlink::tells_data(record@.fields, i, a), record@.fields[i]->Described_0[a]->Tunnel_0[j], record@.fields[i]->Described_0[a]->Tunnel_0[k]]
            0 <= i < record@.fields.len() && crate::netlink::tells_data(record@.fields, i, a)
                && record@.fields[i]->Described_0[a] is Tunnel && 0 <= j < k
                < record@.fields[i]->Described_0[a]->Tunnel_0.len() ==> !(
            record@.fields[i]->Described_0[a]->Tunnel_0[j] is Some
                && record@.fields[i]->Described_0[a]->Tunnel_0[k] is Some),
{
    let fields = record@.fields;
    let n = fields.len() as int;
    if crate::netlink::says_twice(fields, n) {
        crate::netlink::a_record_that_says_something_twice_is_refused(fields, n);
    }
    crate::netlink::nothing_in_a_record_is_lost_or_made_up(fields, n);
    assert forall|i: int, a: int, j: int, k: int|
        #![trigger crate::netlink::tells_data(fields, i, a), fields[i]->Described_0[a]->Tunnel_0[j], fields[i]->Described_0[a]->Tunnel_0[k]]
        0 <= i < n && crate::netlink::tells_data(fields, i, a) && fields[i]->Described_0[a]
            is Tunnel && 0 <= j < k < fields[i]->Described_0[a]->Tunnel_0.len() implies !(
    fields[i]->Described_0[a]->Tunnel_0[j] is Some && fields[i]->Described_0[a]->Tunnel_0[k]
        is Some) by {
        let through = fields[i]->Described_0[a]->Tunnel_0;
        if through[j] is Some && through[k] is Some {
            crate::netlink::a_tunnel_through_two_interfaces_is_refused(
                through,
                through.len() as int,
                j,
                k,
            );
        }
    }
}

/// A decoded datagram begins with a message that can be read, and carries what it says.
pub proof fn a_decoded_message_carries_what_it_says(
    bytes: &[u8],
    order: HostOrder,
    messages: Vec<Message>,
    length: int,
)
    requires
        call_ensures(crate::netlink::decode_datagram, (bytes, &order), Ok(messages)),
        bytes@.len() > 0,
        length == crate::wire::u32_at(bytes@, 0, order.is_high_first()),
    ensures
        16 <= length <= bytes@.len(),
        crate::netlink::readable(bytes@.take(length), order.is_high_first()) is Ok,
        16 <= crate::wire::u16_at(bytes@, 4, order.is_high_first()) <= 19 ==> !(
        crate::attributes::link_scan(bytes@.take(length).skip(16), order.is_high_first()) is Fault),
        messages@.len() > 0,
        messages@[0].body matches Body::Error(code) ==> code == crate::netlink::i32_at(
            bytes@.take(length),
            16,
            order.is_high_first(),
        ),
        messages@[0].body matches Body::Done(code) ==> code == if length == 16 {
            0
        } else {
            crate::netlink::i32_at(bytes@.take(length), 16, order.is_high_first())
        },
        messages@[0].body matches Body::NewLink(record) ==> record@ == crate::netlink::link_in(
            bytes@.take(length).skip(16),
            order.is_high_first(),
        )->0,
{
    let high_first = order.is_high_first();
    let views = crate::netlink::message_views(messages@);
    crate::netlink::messages_follow_each_other(bytes@, length, (length + 3) / 4 * 4, high_first);
    crate::netlink::a_message_carries_what_it_says(bytes@, length, high_first);
    assert(views.len() == messages@.len());
    assert(views[0] == messages@[0]@);
}

/// An inventory opens a socket of its own for no group, and sends one request with the next
/// number. If either fails, that failure is reported as no loss and without changes.
pub proof fn an_inventory_has_a_socket_of_its_own<I: DatagramIo>(attempt: Attempt)
    ensures
        forall|
            source: &mut NetlinkSource<I>,
            taken: Result<Inventory, AcquisitionError>,
        | #[trigger]
            call_ensures(
                <NetlinkSource<I> as Acquisition>::inventory,
                (source, attempt),
                taken,
            ) ==> exists|io: &mut I, opened: Result<I::Socket, Error>|
                {
                    &&& #[trigger] call_ensures(I::open, (io, 0u32), opened)
                    &&& *io == source.io
                    &&& opened matches Err(reason) ==> (taken matches Err(
                        AcquisitionError::Ordinary { error, events },
                    ) && error == reason && events.first is None && events.last is None)
                    &&& opened matches Ok(socket) ==> exists|
                        next: &mut I,
                        request: &[u8],
                        sent: Result<(), Error>,
                    |
                        {
                            &&& #[trigger] call_ensures(
                                I::send,
                                (next, &socket, request),
                                sent,
                            )
                            &&& *next == *final(io)
                            &&& request@ == crate::netlink::dump_request_bytes(
                                crate::netlink::following_sequence(source.sequence),
                                source.order.is_high_first(),
                            )
                            &&& sent matches Err(reason) ==> (taken matches Err(
                                AcquisitionError::Ordinary { error, events },
                            ) && error == reason && events.first is None && events.last is None)
                        }
                },
{
}

/// A failure of an inventory that is no loss is that of its last turn, or that it takes too
/// long; it comes with the changes that notifications told of.
pub proof fn a_failed_inventory_comes_with_its_changes<I: DatagramIo>(
    begun: Span,
    trace: Seq<Exchange<I>>,
    subscribed: bool,
    high_first: bool,
    sequence: u32,
    io: I,
    attempt: Attempt,
    failure: AcquisitionError,
)
    requires
        failure is Ordinary,
        crate::netlink::concludes(
            begun,
            trace,
            subscribed,
            high_first,
            sequence,
            io,
            attempt,
            Err(failure),
        ),
    ensures
        (trace.len() > 0 && crate::netlink::turns_in(
            trace,
            trace.len() - 1,
            high_first,
            sequence,
            Turn::Failed(failure),
        )) || (failure->Ordinary_error@.kind == ErrorKind::TimedOut && failure->Ordinary_events
            == crate::netlink::batch_of(crate::netlink::told_in(trace, trace.len() as int))),
{
    crate::netlink::the_first_and_the_last_change_come_with_an_inventory(
        trace,
        trace.len() as int,
        high_first,
        sequence,
    );
}

/// Whether a message of an answer is one to go on after: it belongs to the request, was not
/// interrupted, and tells of an interface of which sense can be made.
pub open spec fn tells_of_an_interface(message: Message, sequence: u32) -> bool {
    &&& message.sequence == sequence
    &&& message.flags & 16 == 0
    &&& message.body matches Body::NewLink(record) && crate::netlink::observed_in(record@) is Ok
}

/// An answer is refused for its first fault. A message of another request is one, and so is
/// one that was interrupted, an error of the kernel, which is reported by its number
/// without the sign, and an end that reports an error or that more follows.
pub proof fn an_answer_is_refused_for_its_first_fault(
    bytes: &[u8],
    order: HostOrder,
    sequence: u32,
    messages: Vec<Message>,
    n: int,
    fault: Message,
)
    requires
        call_ensures(crate::netlink::decode_datagram, (bytes, &order), Ok(messages)),
        0 <= n < messages@.len(),
        fault == messages@[n],
        forall|i: int| 0 <= i < n ==> tells_of_an_interface(#[trigger] messages@[i], sequence),
    ensures
        forall|links: &mut Vec<ObservedLink>, consumed: Result<bool, Error>| #[trigger]
            call_ensures(
                crate::netlink::consume_dump,
                (bytes, &order, sequence, links),
                consumed,
            ) ==> {
                &&& fault.sequence != sequence ==> consumed is Err && consumed->Err_0@.kind
                    == ErrorKind::InvalidData && consumed->Err_0@.message
                    == "interface inventory response sequence did not match its request"@
                &&& fault.sequence == sequence && fault.flags & 16 != 0 ==> consumed is Err
                    && consumed->Err_0@.kind == ErrorKind::Other && consumed->Err_0@.message
                    == "interface inventory dump was interrupted"@
                &&& fault.sequence == sequence && fault.flags & 16 == 0 ==> match fault.body {
                    Body::NewLink(record) => crate::netlink::observed_in(record@) is Err
                        ==> consumed is Err && consumed->Err_0@ == crate::netlink::observed_in(
                        record@,
                    )->Err_0,
                    Body::Done(code) => {
                        &&& code != 0 ==> consumed is Err && consumed->Err_0@.kind
                            == ErrorKind::Other && consumed->Err_0@.message
                            == "interface inventory completion reported an error"@
                        &&& code == 0 && n < messages@.len() - 1 ==> consumed is Err
                            && consumed->Err_0@.kind == ErrorKind::InvalidData
                            && consumed->Err_0@.message
                            == "interface inventory continued after completion"@
                    },
                    Body::Error(code) => consumed is Err && if code == i32::MIN {
                        consumed->Err_0@.kind == ErrorKind::Other && consumed->Err_0@.message
                            == "unknown netlink error"@
                    } else {
                        consumed->Err_0@.kind matches ErrorKind::System(number) && number == if code
                            < 0 {
                            -code
                        } else {
                            code as int
                        }
                    },
                    Body::Overrun => consumed is Err && consumed->Err_0@.kind == ErrorKind::Other
                        && consumed->Err_0@.message
                        == "interface inventory socket reported overrun"@,
                    _ => consumed is Err && consumed->Err_0@.kind == ErrorKind::InvalidData
                        && consumed->Err_0@.message == "unexpected interface inventory message"@,
                }
            },
{
    let views = crate::netlink::message_views(messages@);
    assert(views.len() == messages@.len());
    assert forall|i: int| 0 <= i < n implies (#[trigger] views[i]).sequence == sequence
        && views[i].flags & 16 == 0 && match views[i].body {
        BodyView::NewLink(record) => crate::netlink::observed_in(record) is Ok,
        BodyView::Done(code) => code == 0 && i == views.len() - 1,
        _ => false,
    } by {
        assert(views[i] == messages@[i]@);
        assert(tells_of_an_interface(messages@[i], sequence));
    }
    crate::netlink::an_answer_is_accepted_exactly_if_it_is_whole(views, sequence, n);
    assert(crate::netlink::dump_of(views, sequence, n) is Ok);
    assert(views[n] == fault@);
    if crate::netlink::dump_of(views, sequence, n + 1) is Err {
        crate::netlink::lemma_dump_kept(views, sequence, n + 1, views.len() as int);
    }
}

/// A notification is refused for its first fault: that it was cut off, that it is not from
/// the kernel, that there is nothing in it, or a message that answers a request, tells of
/// an overrun, or is no notification.
pub proof fn a_notification_is_refused_for_its_first_fault(
    datagram: Datagram,
    order: HostOrder,
    read: Result<bool, Error>,
    bytes: &[u8],
    messages: Vec<Message>,
    n: int,
    fault: Message,
)
    requires
        call_ensures(crate::netlink::read_notification, (&datagram, &order), read),
        bytes@ == datagram.bytes@,
        call_ensures(crate::netlink::decode_datagram, (bytes, &order), Ok(messages)),
        0 <= n < messages@.len(),
        fault == messages@[n],
        forall|i: int|
            0 <= i < n ==> (#[trigger] messages@[i]).sequence == 0 && (messages@[i].body is NewLink
                || messages@[i].body is DelLink || messages@[i].body is Noop),
    ensures
        datagram.truncated ==> read is Err && read->Err_0@.kind == ErrorKind::InvalidData
            && read->Err_0@.message == "link notification datagram was truncated"@,
        !datagram.truncated && !datagram.from_kernel ==> read is Err && read->Err_0@.kind
            == ErrorKind::InvalidData && read->Err_0@.message
            == "link notification came from a non-kernel sender"@,
        !datagram.truncated && datagram.from_kernel && fault.sequence != 0 ==> read is Err
            && read->Err_0@.kind == ErrorKind::InvalidData && read->Err_0@.message
            == "link notification carried a response sequence"@,
        !datagram.truncated && datagram.from_kernel && fault.sequence == 0 ==> match fault.body {
            Body::NewLink(_) => true,
            Body::DelLink => true,
            Body::Noop => true,
            Body::Overrun => read is Err && read->Err_0@.kind == ErrorKind::Other
                && read->Err_0@.message == "link notification socket reported overrun"@,
            _ => read is Err && read->Err_0@.kind == ErrorKind::InvalidData && read->Err_0@.message
                == "unexpected link notification message"@,
        },
{
    let views = crate::netlink::message_views(messages@);
    assert(views.len() == messages@.len());
    assert(bytes@.len() > 0);
    assert forall|i: int| 0 <= i < n implies (#[trigger] views[i]).sequence == 0 && (views[i].body
        is NewLink || views[i].body is DelLink || views[i].body is Noop) by {
        assert(views[i] == messages@[i]@);
    }
    crate::netlink::a_notification_is_accepted_exactly_if_it_holds_nothing_else(views, n);
    assert(views[n] == fault@);
    if crate::netlink::change_of(views, n + 1) is Err {
        crate::netlink::lemma_change_kept(views, n + 1, views.len() as int);
    }
}

/// Of an empty notification it is told that the socket has ended.
pub proof fn an_empty_notification_is_the_end_of_the_socket(
    datagram: Datagram,
    order: HostOrder,
    read: Result<bool, Error>,
)
    requires
        call_ensures(crate::netlink::read_notification, (&datagram, &order), read),
        !datagram.truncated && datagram.from_kernel && datagram.bytes@.len() == 0,
    ensures
        read is Err && read->Err_0@.kind == ErrorKind::UnexpectedEof && read->Err_0@.message
            == "link notification socket terminated"@,
{
}

} // verus!

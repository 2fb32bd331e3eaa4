//! The table as a management protocol sees it: a row for each direct
//! relationship between two interfaces, and a row with a zero index on the side
//! where an interface has no neighbour.

use vstd::prelude::*;

use std::collections::BTreeSet;

use crate::link::{StackRelationship, Topology};
use crate::oid::{is_before, same_components, Oid, OidView};
use crate::pairs::{insert_pair, lower_bound, Pair};

verus! {

broadcast use vstd::std_specs::btree::group_btree_axioms;

/// The identifier under which the table is registered.
pub const TABLE: [u32; 9] = [1, 3, 6, 1, 2, 1, 31, 1, 2];

/// The most bindings that one bulk request is answered with.
pub const MAX_BULK_BINDINGS: usize = 4096;

/// What a variable is bound to.
#[derive(Clone, Copy, Debug, PartialEq, Eq, Structural)]
pub enum Value {
    Integer(i32),
    NoSuchObject,
    NoSuchInstance,
    EndOfMibView,
}

/// A variable and what it is bound to.
#[derive(Debug, PartialEq)]
pub struct VarBind {
    pub name: Oid,
    pub data: Value,
}

/// The value of a [`VarBind`].
pub struct VarBindView {
    pub name: OidView,
    pub data: Value,
}

impl View for VarBind {
    type V = VarBindView;

    open spec fn view(&self) -> VarBindView {
        VarBindView { name: self.name@, data: self.data }
    }
}

impl VarBind {
    /// A variable of this name, bound to this value.
    pub fn new(name: Oid, data: Value) -> (var: Self)
        ensures
            var@ == (VarBindView { name: name@, data }),
    {
        Self { name, data }
    }
}

/// Where a search starts, and the first identifier that it must not reach. A
/// search whose end has no component goes on to the end of the table.
#[derive(Debug, PartialEq)]
pub struct SearchRange {
    pub start: Oid,
    pub end: Oid,
}

/// The value of a [`SearchRange`].
pub struct RangeView {
    pub start: OidView,
    pub end: OidView,
}

impl View for SearchRange {
    type V = RangeView;

    open spec fn view(&self) -> RangeView {
        RangeView { start: self.start@, end: self.end@ }
    }
}

impl SearchRange {
    /// The range from one identifier to another.
    pub fn new(start: Oid, end: Oid) -> (range: Self)
        ensures
            range@ == (RangeView { start: start@, end: end@ }),
    {
        Self { start, end }
    }

    /// A copy of the range.
    pub fn copy(&self) -> (range: Self)
        ensures
            range@ == self@,
    {
        Self { start: self.start.copy(), end: self.end.copy() }
    }
}

/// The values of a list of ranges.
pub open spec fn range_views(ranges: Seq<SearchRange>) -> Seq<RangeView> {
    ranges.map_values(|range: SearchRange| range@)
}

/// The values of a list of variables.
pub open spec fn var_views(vars: Seq<VarBind>) -> Seq<VarBindView> {
    vars.map_values(|var: VarBind| var@)
}

/// The identifier of the one column that the table has.
pub open spec fn status() -> Seq<u32> {
    seq![1u32, 3, 6, 1, 2, 1, 31, 1, 2, 1, 3]
}

/// The identifier of a row: the column's, then the row's two indexes.
pub open spec fn row_name(row: Pair) -> Seq<u32> {
    status() + seq![row.0, row.1]
}

/// A variable as it is answered: its name is a plain identifier.
pub open spec fn answered(name: Seq<u32>, data: Value) -> VarBindView {
    VarBindView { name: OidView { components: name, inclusive: 0 }, data }
}

/// The variable of this name in a table of these rows.
pub open spec fn lookup(rows: Seq<Pair>, name: Seq<u32>) -> VarBindView {
    if exists|row: Pair| rows.contains(row) && #[trigger] row_name(row) == name {
        answered(name, Value::Integer(1))
    } else if status().is_prefix_of(name) {
        answered(name, Value::NoSuchInstance)
    } else {
        answered(name, Value::NoSuchObject)
    }
}

/// Whether a search from `start` may find this name.
pub open spec fn reached(start: OidView, name: Seq<u32>) -> bool {
    crate::oid::oid_lt(start.components, name) || (start.inclusive == 1 && start.components == name)
}

/// Whether a search from `start` finds this row first: it may find the row, and
/// every row that it may find besides stands behind it.
pub open spec fn first_found(rows: Seq<Pair>, start: OidView, row: Pair) -> bool {
    &&& rows.contains(row)
    &&& reached(start, row_name(row))
    &&& forall|other: Pair| #[trigger]
        rows.contains(other) && other != row && reached(start, row_name(other))
            ==> crate::oid::oid_lt(row_name(row), row_name(other))
}

/// Whether a name stands before the end of a search.
pub open spec fn within(end: OidView, name: Seq<u32>) -> bool {
    end.components.len() == 0 || crate::oid::oid_lt(name, end.components)
}

/// What a search over a range is answered with: the row that it finds first, if
/// that stands before its end.
pub open spec fn next_in(rows: Seq<Pair>, range: RangeView) -> VarBindView {
    if exists|row: Pair| #[trigger]
        first_found(rows, range.start, row) && within(range.end, row_name(row)) {
        let row = choose|row: Pair| #[trigger]
            first_found(rows, range.start, row) && within(range.end, row_name(row));
        answered(row_name(row), Value::Integer(1))
    } else {
        answered(range.start.components, Value::EndOfMibView)
    }
}

/// What the repetition number `n` of a search is answered with: each repetition
/// goes on from the name that the one before it found.
pub open spec fn repetition(rows: Seq<Pair>, range: RangeView, n: nat) -> VarBindView
    decreases n,
{
    if n == 0 {
        next_in(rows, range)
    } else {
        next_in(
            rows,
            RangeView { start: repetition(rows, range, (n - 1) as nat).name, end: range.end },
        )
    }
}

/// What the repetition number `n` of each of the searches is answered with.
pub open spec fn round(rows: Seq<Pair>, ranges: Seq<RangeView>, n: nat) -> Seq<VarBindView> {
    Seq::new(ranges.len(), |j: int| repetition(rows, ranges[j], n))
}

/// Whether a round has found nothing.
pub open spec fn exhausted(vars: Seq<VarBindView>) -> bool {
    forall|j: int| 0 <= j < vars.len() ==> (#[trigger] vars[j]).data is EndOfMibView
}

/// The rounds from number `n` on: as many as are asked for, but none after one
/// that has found nothing.
pub open spec fn rounds(rows: Seq<Pair>, ranges: Seq<RangeView>, n: nat, max: nat) -> Seq<
    VarBindView,
>
    decreases max - n,
{
    if n >= max {
        seq![]
    } else if exhausted(round(rows, ranges, n)) {
        round(rows, ranges, n)
    } else {
        round(rows, ranges, n) + rounds(rows, ranges, n + 1, max)
    }
}

/// What a bulk request is answered with, however long that is: the first ranges
/// are searched once, and the others in rounds.
pub open spec fn bulk_unbounded(
    rows: Seq<Pair>,
    ranges: Seq<RangeView>,
    non_repeaters: nat,
    max_repetitions: nat,
) -> Seq<VarBindView> {
    let count = if non_repeaters < ranges.len() {
        non_repeaters as int
    } else {
        ranges.len() as int
    };
    round(rows, ranges.take(count), 0) + rounds(rows, ranges.skip(count), 0, max_repetitions)
}

/// What a bulk request is answered with.
pub open spec fn bulk(
    rows: Seq<Pair>,
    ranges: Seq<RangeView>,
    non_repeaters: nat,
    max_repetitions: nat,
) -> Seq<VarBindView> {
    let all = bulk_unbounded(rows, ranges, non_repeaters, max_repetitions);
    if all.len() <= MAX_BULK_BINDINGS {
        all
    } else {
        all.take(MAX_BULK_BINDINGS as int)
    }
}

/// The rows of a topology: its relationships; a zero above every interface that
/// is nobody's lower one; and a zero below every interface that is nobody's
/// higher one.
pub open spec fn is_row(indexes: Set<u32>, pairs: Seq<Pair>, row: Pair) -> bool {
    ||| pairs.contains(row)
    ||| row.0 == 0 && indexes.contains(row.1) && !exists|p: Pair| #[trigger]
        pairs.contains(p) && p.1 == row.1
    ||| row.1 == 0 && indexes.contains(row.0) && !exists|p: Pair| #[trigger]
        pairs.contains(p) && p.0 == row.0
}

/// The table.
#[derive(Debug)]
pub struct Mib {
    rows: Vec<Pair>,
}

impl Mib {
    /// The rows in ascending order.
    pub closed spec fn rows(&self) -> Seq<Pair> {
        self.rows@
    }

    #[verifier::type_invariant]
    pub closed spec fn well_formed(&self) -> bool {
        crate::pairs::ascending(self.rows())
    }

    /// The table of these rows; a row that occurs twice counts once.
    pub fn new(rows: Vec<Pair>) -> (mib: Self)
        ensures
            crate::pairs::ascending(mib.rows()),
            mib.rows().to_set() == rows@.to_set(),
    {
        let mut sorted: Vec<Pair> = Vec::new();
        let mut i: usize = 0;
        assert(rows@.take(0).to_set() =~= sorted@.to_set());
        while i < rows.len()
            invariant
                i <= rows@.len(),
                crate::pairs::ascending(sorted@),
                sorted@.to_set() == rows@.take(i as int).to_set(),
            decreases rows@.len() - i,
        {
            insert_pair(&mut sorted, rows[i]);
            proof {
                lemma_take_to_set(rows@, i as int);
            }
            i = i + 1;
        }
        assert(rows@.take(i as int) =~= rows@);
        Self { rows: sorted }
    }
}

proof fn lemma_take_to_set(rows: Seq<Pair>, i: int)
    requires
        0 <= i < rows.len(),
    ensures
        rows.take(i + 1).to_set() == rows.take(i).to_set().insert(rows[i]),
{
    let next = rows.take(i + 1);
    let now = rows.take(i);
    assert(next =~= now.push(rows[i]));
    assert forall|p: Pair| next.to_set().contains(p) <==> now.to_set().insert(rows[i]).contains(
        p,
    ) by {
        if next.contains(p) {
            let k = choose|k: int| 0 <= k < next.len() && next[k] == p;
            if k < i {
                assert(now[k] == p);
            }
        }
        if now.contains(p) {
            let k = choose|k: int| 0 <= k < now.len() && now[k] == p;
            assert(next[k] == p);
        }
        assert(next[i] == rows[i]);
    }
    assert(next.to_set() =~= now.to_set().insert(rows[i]));
}

/// The identifier of a row.
fn row_components(row: Pair) -> (name: Vec<u32>)
    ensures
        name@ == row_name(row),
{
    let name: Vec<u32> = vec![1, 3, 6, 1, 2, 1, 31, 1, 2, 1, 3, row.0, row.1];
    assert(name@ =~= row_name(row));
    name
}

/// Rows are ordered as their identifiers are.
pub proof fn row_names_keep_the_order(a: Pair, b: Pair)
    ensures
        crate::pairs::pair_lt(a, b) <==> crate::oid::oid_lt(row_name(a), row_name(b)),
        a == b <==> row_name(a) == row_name(b),
{
    let x = row_name(a);
    let y = row_name(b);
    assert(x[11] == a.0 && x[12] == a.1 && y[11] == b.0 && y[12] == b.1);
    if crate::pairs::pair_lt(a, b) {
        lemma_row_lt(a, b);
    } else if crate::pairs::pair_lt(b, a) {
        lemma_row_lt(b, a);
        crate::oid::oid_order_is_total(x, y);
    } else {
        assert(x =~= y);
        crate::oid::oid_order_is_irreflexive(x);
    }
}

proof fn lemma_row_lt(a: Pair, b: Pair)
    requires
        crate::pairs::pair_lt(a, b),
    ensures
        crate::oid::oid_lt(row_name(a), row_name(b)),
{
    let x = row_name(a);
    let y = row_name(b);
    let k: int = if a.0 < b.0 {
        11
    } else {
        12
    };
    assert(x.take(k) =~= y.take(k));
    assert(crate::oid::lower_from(x, y, k));
}

/// A search that may find a row may find every row behind it.
proof fn lemma_reached_upward(start: OidView, a: Pair, b: Pair)
    requires
        crate::pairs::pair_lt(a, b),
        reached(start, row_name(a)),
    ensures
        reached(start, row_name(b)),
{
    row_names_keep_the_order(a, b);
    if crate::oid::oid_lt(start.components, row_name(a)) {
        crate::oid::oid_order_is_transitive(start.components, row_name(a), row_name(b));
    }
}

/// A search finds at most one row first.
pub proof fn first_found_is_unique(rows: Seq<Pair>, start: OidView, a: Pair, b: Pair)
    requires
        first_found(rows, start, a),
        first_found(rows, start, b),
    ensures
        a == b,
{
    if a != b {
        assert(rows.contains(a) && rows.contains(b));
        crate::oid::oid_order_is_transitive(row_name(a), row_name(b), row_name(a));
        crate::oid::oid_order_is_irreflexive(row_name(a));
    }
}

/// Whether a search from `start` may find this name.
fn is_reached(start: &Oid, name: &Vec<u32>) -> (found: bool)
    ensures
        found == reached(start@, name@),
{
    is_before(&start.components, name) || (start.inclusive == 1 && same_components(
        &start.components,
        name,
    ))
}

impl Mib {
    /// The table of a topology.
    pub fn from_topology(topology: &Topology) -> (mib: Self)
        ensures
            crate::pairs::ascending(mib.rows()),
            forall|row: Pair| #[trigger]
                mib.rows().contains(row) <==> is_row(topology.indexes(), topology.pairs(), row),
    {
        let relationships: &Vec<StackRelationship> = topology.relationships();
        let ghost pairs = topology.pairs();
        let mut rows: Vec<Pair> = Vec::new();
        let mut highers: BTreeSet<u32> = BTreeSet::new();
        let mut lowers: BTreeSet<u32> = BTreeSet::new();
        let mut n: usize = 0;
        while n < relationships.len()
            invariant
                n <= relationships@.len(),
                relationships@.len() == pairs.len(),
                relationships@.map_values(|r: StackRelationship| r.pair()) == pairs,
                crate::pairs::ascending(rows@),
                rows@.to_set() == pairs.take(n as int).to_set(),
                forall|i: u32| #[trigger]
                    highers@.contains(i) <==> exists|k: int|
                        0 <= k < n && (#[trigger] pairs[k]).0 == i,
                forall|i: u32| #[trigger]
                    lowers@.contains(i) <==> exists|k: int|
                        0 <= k < n && (#[trigger] pairs[k]).1 == i,
            decreases relationships@.len() - n,
        {
            let relationship: StackRelationship = relationships[n];
            assert(pairs[n as int] == relationship.pair());
            insert_pair(&mut rows, (relationship.higher, relationship.lower));
            let _ = highers.insert(relationship.higher);
            let _ = lowers.insert(relationship.lower);
            proof {
                lemma_take_to_set(pairs, n as int);
            }
            n = n + 1;
        }
        let interfaces: &BTreeSet<u32> = topology.interfaces();
        let ghost indexes = topology.indexes();
        proof {
            assert(pairs.take(n as int) =~= pairs);
            assert forall|i: u32| #[trigger] highers@.contains(i) <==> exists|p: Pair| #[trigger]
                pairs.contains(p) && p.0 == i by {
                if highers@.contains(i) {
                    let k = choose|k: int| 0 <= k < n && (#[trigger] pairs[k]).0 == i;
                    assert(pairs.contains(pairs[k]));
                }
            }
            assert forall|i: u32| #[trigger] lowers@.contains(i) <==> exists|p: Pair| #[trigger]
                pairs.contains(p) && p.1 == i by {
                if lowers@.contains(i) {
                    let k = choose|k: int| 0 <= k < n && (#[trigger] pairs[k]).1 == i;
                    assert(pairs.contains(pairs[k]));
                }
            }
        }
        let ghost mut seen = Set::<u32>::empty();
        for index in walk: interfaces.iter()
            invariant
                seen == walk.seq().unref().take(walk.index()).to_set(),
                walk.index() == walk.seq().len() ==> seen == indexes,
                indexes == interfaces@,
                forall|i: u32| #[trigger] indexes.contains(i) ==> 0 < i,
                forall|i: u32| #[trigger]
                    highers@.contains(i) <==> exists|p: Pair| #[trigger]
                        pairs.contains(p) && p.0 == i,
                forall|i: u32| #[trigger]
                    lowers@.contains(i) <==> exists|p: Pair| #[trigger]
                        pairs.contains(p) && p.1 == i,
                walk.seq().unref().to_set() == indexes,
                crate::pairs::ascending(rows@),
                forall|row: Pair| #[trigger]
                    rows@.to_set().contains(row) <==> is_row(seen, pairs, row),
        {
            let index: u32 = *index;
            let ghost before = rows@.to_set();
            if !lowers.contains(&index) {
                insert_pair(&mut rows, (0, index));
            }
            if !highers.contains(&index) {
                insert_pair(&mut rows, (index, 0));
            }
            proof {
                let all = walk.seq().unref();
                let now = all.take(walk.index());
                let next = all.take(walk.index() + 1);
                assert(all[walk.index()] == index);
                assert(all.to_set().contains(index));
                assert(next =~= now.push(index));
                assert(next.to_set() =~= seen.insert(index)) by {
                    assert forall|i: u32| next.to_set().contains(i) <==> seen.insert(
                        index,
                    ).contains(i) by {
                        if now.contains(i) {
                            let k = choose|k: int| 0 <= k < now.len() && now[k] == i;
                            assert(next[k] == i);
                        }
                        assert(next[now.len() as int] == index);
                    }
                }
                assert(walk.index() + 1 == all.len() ==> next =~= all);
                assert forall|row: Pair| #[trigger] rows@.to_set().contains(row) <==> is_row(
                    seen.insert(index),
                    pairs,
                    row,
                ) by {
                    assert(before.contains(row) <==> is_row(seen, pairs, row));
                }
                seen = seen.insert(index);
            }
        }
        proof {
            assert forall|row: Pair| #[trigger] rows@.contains(row) <==> is_row(
                indexes,
                pairs,
                row,
            ) by {
                assert(rows@.to_set().contains(row) <==> rows@.contains(row));
            }
        }
        Self { rows }
    }

    /// The variable of this name.
    pub fn get(&self, name: &Oid) -> (var: VarBind)
        ensures
            var@ == lookup(self.rows(), name@.components),
    {
        let data: Value = self.value_of(&name.components);
        binding(name, data)
    }

    /// What the variable with these components is bound to.
    fn value_of(&self, components: &Vec<u32>) -> (data: Value)
        ensures
            data == lookup(self.rows(), components@).data,
    {
        proof {
            use_type_invariant(self);
        }
        let ghost name = components@;
        let column: Vec<u32> = vec![1, 3, 6, 1, 2, 1, 31, 1, 2, 1, 3];
        assert(column@ =~= status());
        if components.len() < column.len() {
            assert(!status().is_prefix_of(name));
            assert forall|row: Pair| #[trigger] row_name(row) != name by {}
            return Value::NoSuchObject;
        }
        let mut k: usize = 0;
        while k < column.len()
            invariant
                k <= column@.len() <= components@.len(),
                column@ == status(),
                name == components@,
                forall|i: int| 0 <= i < k ==> column@[i] == name[i],
            decreases column@.len() - k,
        {
            if column[k] != components[k] {
                proof {
                    assert(!status().is_prefix_of(name));
                    assert forall|row: Pair| #[trigger] row_name(row) != name by {
                        assert(row_name(row)[k as int] == status()[k as int]);
                    }
                }
                return Value::NoSuchObject;
            }
            k = k + 1;
        }
        assert(status().is_prefix_of(name)) by {
            assert(name.subrange(0, status().len() as int) =~= status());
        }
        if components.len() == 13 {
            let row: Pair = (components[11], components[12]);
            assert(row_name(row) =~= name);
            if self.contains_row(row) {
                return Value::Integer(1);
            }
            proof {
                assert forall|other: Pair| self.rows().contains(other) implies #[trigger] row_name(
                    other,
                ) != name by {
                    row_names_keep_the_order(other, row);
                }
            }
        } else {
            assert forall|row: Pair| #[trigger] row_name(row) != name by {}
        }
        Value::NoSuchInstance
    }

    /// Whether the table has this row.
    fn contains_row(&self, row: Pair) -> (found: bool)
        ensures
            found == self.rows().contains(row),
    {
        proof {
            use_type_invariant(self);
        }
        let position: usize = lower_bound(&self.rows, row);
        let found: bool = position < self.rows.len() && self.rows[position].0 == row.0
            && self.rows[position].1 == row.1;
        proof {
            if found {
                assert(self.rows@[position as int] == row);
            } else if self.rows().contains(row) {
                let k = choose|k: int| 0 <= k < self.rows@.len() && self.rows@[k] == row;
                assert(k >= position);
                if k > position {
                    assert(crate::pairs::pair_lt(self.rows@[position as int], self.rows@[k]));
                }
            }
        }
        found
    }

    /// The variable that a search over this range finds first, or the start of
    /// the range where it finds none.
    pub fn get_next(&self, range: &SearchRange) -> (var: VarBind)
        ensures
            var@ == next_in(self.rows(), range@),
    {
        proof {
            use_type_invariant(self);
        }
        let ghost start = range@.start;
        let mut low: usize = 0;
        let mut high: usize = self.rows.len();
        while low < high
            invariant
                low <= high <= self.rows@.len(),
                start == range.start@,
                crate::pairs::ascending(self.rows@),
                forall|i: int| 0 <= i < low ==> !reached(start, row_name(#[trigger] self.rows@[i])),
                forall|i: int|
                    high <= i < self.rows@.len() ==> reached(
                        start,
                        row_name(#[trigger] self.rows@[i]),
                    ),
            decreases high - low,
        {
            let middle: usize = low + (high - low) / 2;
            let name: Vec<u32> = row_components(self.rows[middle]);
            let found: bool = is_reached(&range.start, &name);
            proof {
                let at = self.rows@[middle as int];
                assert forall|i: int| 0 <= i < self.rows@.len() && i != middle implies (found
                    && middle < i ==> reached(start, row_name(#[trigger] self.rows@[i]))) && (!found
                    && i < middle ==> !reached(start, row_name(self.rows@[i]))) by {
                    if found && middle < i {
                        lemma_reached_upward(start, at, self.rows@[i]);
                    }
                    if !found && i < middle && reached(start, row_name(self.rows@[i])) {
                        lemma_reached_upward(start, self.rows@[i], at);
                    }
                }
            }
            if found {
                high = middle;
            } else {
                low = middle + 1;
            }
        }
        if low < self.rows.len() {
            let row: Pair = self.rows[low];
            let name: Vec<u32> = row_components(row);
            proof {
                assert(self.rows@[low as int] == row);
                assert(first_found(self.rows(), start, row)) by {
                    assert forall|other: Pair| #[trigger]
                        self.rows().contains(other) && other != row && reached(
                            start,
                            row_name(other),
                        ) implies crate::oid::oid_lt(row_name(row), row_name(other)) by {
                        let k = choose|k: int|
                            0 <= k < self.rows@.len() && self.rows@[k] == other;
                        assert(reached(start, row_name(self.rows@[k])));
                        assert(crate::pairs::pair_lt(self.rows@[low as int], self.rows@[k]));
                        row_names_keep_the_order(row, other);
                    }
                }
                assert forall|other: Pair| #[trigger]
                    first_found(self.rows(), start, other) implies other == row by {
                    first_found_is_unique(self.rows(), start, row, other);
                }
            }
            if range.end.is_null() || is_before(&name, &range.end.components) {
                return VarBind::new(Oid::new(name), Value::Integer(1));
            }
        } else {
            proof {
                assert forall|other: Pair| !#[trigger] first_found(self.rows(), start, other) by {
                    if self.rows().contains(other) {
                        let k = choose|k: int| 0 <= k < self.rows@.len() && self.rows@[k] == other;
                        assert(!reached(start, row_name(self.rows@[k])));
                    }
                }
            }
        }
        binding(&range.start, Value::EndOfMibView)
    }

    /// Searches the first `non_repeaters` ranges once and the others up to
    /// `max_repetitions` times, round by round, each time from the name that the
    /// last search over the range has found.
    pub fn get_bulk(
        &self,
        ranges: Vec<SearchRange>,
        non_repeaters: u16,
        max_repetitions: u16,
    ) -> (vars: Vec<VarBind>)
        ensures
            var_views(vars@) == bulk(
                self.rows(),
                range_views(ranges@),
                non_repeaters as nat,
                max_repetitions as nat,
            ),
            vars@.len() <= MAX_BULK_BINDINGS,
    {
        let ghost rows = self.rows();
        let ghost views = range_views(ranges@);
        let ghost max = max_repetitions as nat;
        let count: usize = if (non_repeaters as usize) < ranges.len() {
            non_repeaters as usize
        } else {
            ranges.len()
        };
        let ghost once = round(rows, views.take(count as int), 0);
        let ghost searched = views.skip(count as int);
        let ghost all = bulk_unbounded(rows, views, non_repeaters as nat, max);
        assert(all == once + rounds(rows, searched, 0, max));
        let mut vars: Vec<VarBind> = Vec::new();
        let mut i: usize = 0;
        while i < count && i < MAX_BULK_BINDINGS
            invariant
                i <= count <= ranges@.len(),
                i <= MAX_BULK_BINDINGS,
                rows == self.rows(),
                views == range_views(ranges@),
                once == round(rows, views.take(count as int), 0),
                vars@.len() == i,
                var_views(vars@) == once.take(i as int),
            decreases count - i,
        {
            vars.push(self.get_next(&ranges[i]));
            proof {
                assert(views[i as int] == ranges@[i as int]@);
                assert(once[i as int] == vars@[i as int]@);
                assert(var_views(vars@) =~= once.take(i + 1));
            }
            i = i + 1;
        }
        if i < count {
            assert(all.take(MAX_BULK_BINDINGS as int) =~= once.take(i as int));
            return vars;
        }
        let mut repeaters: Vec<SearchRange> = Vec::new();
        let mut j: usize = count;
        while j < ranges.len()
            invariant
                count <= j <= ranges@.len(),
                views == range_views(ranges@),
                searched == views.skip(count as int),
                repeaters@.len() == j - count,
                forall|k: int| 0 <= k < repeaters@.len() ==> (#[trigger] repeaters@[k])@
                    == searched[k],
            decreases ranges@.len() - j,
        {
            repeaters.push(ranges[j].copy());
            j = j + 1;
        }
        proof {
            assert(once.take(i as int) =~= once);
            assert(var_views(vars@) + rounds(rows, searched, 0, max) =~= all);
        }
        let mut n: u16 = 0;
        while n < max_repetitions
            invariant_except_break
                all == var_views(vars@) + rounds(rows, searched, n as nat, max),
                forall|k: int|
                    0 <= k < repeaters@.len() ==> (#[trigger] repeaters@[k])@ == searched_from(
                        rows,
                        searched[k],
                        n as nat,
                    ),
            invariant
                n <= max_repetitions,
                max == max_repetitions,
                rows == self.rows(),
                all == bulk_unbounded(
                    rows,
                    range_views(ranges@),
                    non_repeaters as nat,
                    max_repetitions as nat,
                ),
                repeaters@.len() == searched.len(),
                vars@.len() <= MAX_BULK_BINDINGS,
            ensures
                all == var_views(vars@),
            decreases max_repetitions - n,
        {
            let ghost this = round(rows, searched, n as nat);
            let ghost rest = if exhausted(this) {
                seq![]
            } else {
                rounds(rows, searched, n as nat + 1, max)
            };
            let ghost before = var_views(vars@);
            assert(rounds(rows, searched, n as nat, max) =~= this + rest);
            let mut found: bool = false;
            let mut k: usize = 0;
            while k < repeaters.len()
                invariant
                    k <= repeaters@.len() == searched.len(),
                    rows == self.rows(),
                    this == round(rows, searched, n as nat),
                    all == before + (this + rest),
                    var_views(vars@) == before + this.take(k as int),
                    vars@.len() <= MAX_BULK_BINDINGS,
                    found == exists|m: int|
                        0 <= m < k && !((#[trigger] this[m]).data is EndOfMibView),
                    forall|m: int|
                        0 <= m < k ==> (#[trigger] repeaters@[m])@ == searched_from(
                            rows,
                            searched[m],
                            n as nat + 1,
                        ),
                    forall|m: int|
                        k <= m < repeaters@.len() ==> (#[trigger] repeaters@[m])@ == searched_from(
                            rows,
                            searched[m],
                            n as nat,
                        ),
                    all == bulk_unbounded(
                        rows,
                        range_views(ranges@),
                        non_repeaters as nat,
                        max_repetitions as nat,
                    ),
                decreases repeaters@.len() - k,
            {
                if vars.len() == MAX_BULK_BINDINGS {
                    proof {
                        let got = var_views(vars@);
                        assert(all =~= got + (this.skip(k as int) + rest));
                        assert(all.take(MAX_BULK_BINDINGS as int) =~= got);
                        if all.len() <= MAX_BULK_BINDINGS {
                            assert(all =~= got);
                        }
                    }
                    return vars;
                }
                let next: VarBind = self.get_next(&repeaters[k]);
                let ghost ghost_next = next@;
                assert(ghost_next == this[k as int]);
                match next.data {
                    Value::EndOfMibView => {},
                    _ => {
                        found = true;
                    },
                }
                let end: Oid = repeaters[k].end.copy();
                repeaters.set(k, SearchRange { start: next.name.copy(), end });
                let ghost got = vars@;
                vars.push(next);
                proof {
                    assert(var_views(vars@) =~= var_views(got).push(ghost_next));
                    assert(this.take(k + 1) =~= this.take(k as int).push(this[k as int]));
                    assert(before + this.take(k + 1) =~= (before + this.take(k as int)).push(
                        this[k as int],
                    ));
                    assert(found == exists|m: int|
                        0 <= m < k + 1 && !((#[trigger] this[m]).data is EndOfMibView)) by {
                        if ghost_next.data !is EndOfMibView {
                            assert(!(this[k as int].data is EndOfMibView));
                        }
                    }
                }
                k = k + 1;
            }
            assert(this.take(k as int) =~= this);
            if !found {
                assert(exhausted(this));
                assert(all =~= var_views(vars@));
                break;
            }
            assert(!exhausted(this));
            assert(all =~= var_views(vars@) + rounds(rows, searched, n as nat + 1, max));
            n = n + 1;
            assert(n == max ==> rounds(rows, searched, n as nat, max) =~= seq![]);
        }
        vars
    }
}

/// The range that the repetition number `n` of a search goes over.
spec fn searched_from(rows: Seq<Pair>, range: RangeView, n: nat) -> RangeView {
    if n == 0 {
        range
    } else {
        RangeView { start: repetition(rows, range, (n - 1) as nat).name, end: range.end }
    }
}

/// The variable of this name as it is answered.
fn binding(name: &Oid, data: Value) -> (var: VarBind)
    ensures
        var@ == answered(name@.components, data),
{
    VarBind::new(Oid::new(name.components.clone()), data)
}

/// What a search finds is a row of the table: it is at the start of the range
/// only where the start says that it may be, and otherwise behind it; it stands
/// before the end of the range; and looking it up gives the same variable.
pub proof fn a_search_finds_rows_inside_its_range(rows: Seq<Pair>, range: RangeView)
    requires
        next_in(rows, range).data !is EndOfMibView,
    ensures
        next_in(rows, range).data == Value::Integer(1),
        reached(range.start, next_in(rows, range).name.components),
        within(range.end, next_in(rows, range).name.components),
        lookup(rows, next_in(rows, range).name.components) == next_in(rows, range),
{
    let row = choose|row: Pair| #[trigger]
        first_found(rows, range.start, row) && within(range.end, row_name(row));
    assert(rows.contains(row) && row_name(row) == next_in(rows, range).name.components);
}

/// Looking up the name of a row tells whether the table has it.
pub proof fn a_row_is_looked_up_by_its_name(rows: Seq<Pair>, row: Pair)
    ensures
        rows.contains(row) ==> lookup(rows, row_name(row)) == answered(
            row_name(row),
            Value::Integer(1),
        ),
        !rows.contains(row) ==> lookup(rows, row_name(row)) == answered(
            row_name(row),
            Value::NoSuchInstance,
        ),
{
    assert forall|other: Pair| rows.contains(other) && #[trigger] row_name(other) == row_name(
        row,
    ) implies other == row by {
        row_names_keep_the_order(other, row);
    }
    assert(status().is_prefix_of(row_name(row))) by {
        assert(row_name(row).subrange(0, status().len() as int) =~= status());
    }
}

/// A search passes over no row: a row that it may find and that stands before
/// the end of the range is what it finds, or stands behind that.
pub proof fn a_search_skips_no_row(rows: Seq<Pair>, range: RangeView, row: Pair)
    requires
        crate::pairs::ascending(rows),
        rows.contains(row),
        reached(range.start, row_name(row)),
        within(range.end, row_name(row)),
    ensures
        next_in(rows, range).data == Value::Integer(1),
        next_in(rows, range).name.components == row_name(row) || crate::oid::oid_lt(
            next_in(rows, range).name.components,
            row_name(row),
        ),
{
    let first = lemma_first_found(rows, range.start, row);
    if first != row {
        assert(crate::oid::oid_lt(row_name(first), row_name(row)));
        if range.end.components.len() > 0 {
            crate::oid::oid_order_is_transitive(
                row_name(first),
                row_name(row),
                range.end.components,
            );
        }
    }
    assert(first_found(rows, range.start, first) && within(range.end, row_name(first)));
    let chosen = choose|r: Pair| #[trigger]
        first_found(rows, range.start, r) && within(range.end, row_name(r));
    first_found_is_unique(rows, range.start, first, chosen);
}

/// If a search may find a row, some row is the first one that it finds.
proof fn lemma_first_found(rows: Seq<Pair>, start: OidView, row: Pair) -> (first: Pair)
    requires
        crate::pairs::ascending(rows),
        rows.contains(row),
        reached(start, row_name(row)),
    ensures
        first_found(rows, start, first),
    decreases rows.len(),
{
    let last = rows.last();
    let fewer = rows.drop_last();
    if exists|r: Pair| #[trigger] fewer.contains(r) && reached(start, row_name(r)) {
        let r = choose|r: Pair| #[trigger] fewer.contains(r) && reached(start, row_name(r));
        let first = lemma_first_found(fewer, start, r);
        let i = choose|i: int| 0 <= i < fewer.len() && fewer[i] == first;
        assert(rows[i] == first);
        assert forall|other: Pair| #[trigger]
            rows.contains(other) && other != first && reached(
                start,
                row_name(other),
            ) implies crate::oid::oid_lt(row_name(first), row_name(other)) by {
            let k = choose|k: int| 0 <= k < rows.len() && rows[k] == other;
            if k < fewer.len() {
                assert(fewer[k] == other);
                assert(fewer.contains(other));
            } else {
                assert(crate::pairs::pair_lt(rows[i], rows[k]));
                row_names_keep_the_order(first, other);
            }
        }
        first
    } else {
        assert forall|other: Pair| #[trigger]
            rows.contains(other) && reached(start, row_name(other)) implies other == last by {
            let k = choose|k: int| 0 <= k < rows.len() && rows[k] == other;
            if k < fewer.len() {
                assert(fewer[k] == other);
                assert(fewer.contains(other));
            }
        }
        assert(rows.contains(row));
        last
    }
}

/// A walk over the table from the name of its column visits the rows one after
/// the other, each once, and then ends.
pub proof fn a_walk_visits_every_row_in_order(rows: Seq<Pair>, n: nat)
    requires
        crate::pairs::ascending(rows),
    ensures
        n < rows.len() ==> repetition(rows, whole_column(), n) == answered(
            row_name(rows[n as int]),
            Value::Integer(1),
        ),
        n >= rows.len() ==> repetition(rows, whole_column(), n).data is EndOfMibView,
    decreases n,
{
    let range = whole_column();
    if n == 0 {
        assert forall|row: Pair| reached(range.start, #[trigger] row_name(row)) by {
            assert(row_name(row).take(11) =~= status().take(11));
            assert(crate::oid::lower_from(status(), row_name(row), 11));
        }
        lemma_next_is(rows, range.start, 0);
    } else {
        a_walk_visits_every_row_in_order(rows, (n - 1) as nat);
        let start = repetition(rows, range, (n - 1) as nat).name;
        if n <= rows.len() {
            assert forall|k: int| 0 <= k < rows.len() implies (reached(
                start,
                row_name(#[trigger] rows[k]),
            ) <==> k >= n) by {
                let at = rows[n - 1];
                if k < n - 1 {
                    assert(crate::pairs::pair_lt(rows[k], rows[n - 1]));
                    row_names_keep_the_order(rows[k], at);
                    crate::oid::oid_order_is_total(row_name(rows[k]), row_name(at));
                } else if k == n - 1 {
                    crate::oid::oid_order_is_irreflexive(row_name(at));
                } else {
                    assert(crate::pairs::pair_lt(rows[n - 1], rows[k]));
                    row_names_keep_the_order(at, rows[k]);
                }
            }
            lemma_next_is(rows, start, n as int);
        } else {
            an_exhausted_search_stays_exhausted(rows, range, (n - 1) as nat);
        }
    }
}

/// A search over the whole column.
pub open spec fn whole_column() -> RangeView {
    RangeView {
        start: OidView { components: status(), inclusive: 0 },
        end: OidView { components: seq![], inclusive: 0 },
    }
}

/// If the rows that an unbounded search may find are those from position `n`
/// on, the search finds the row at `n`.
proof fn lemma_next_is(rows: Seq<Pair>, start: OidView, n: int)
    requires
        crate::pairs::ascending(rows),
        0 <= n <= rows.len(),
        forall|k: int|
            0 <= k < rows.len() ==> (reached(start, row_name(#[trigger] rows[k])) <==> k >= n),
    ensures
        ({
            let range = RangeView { start, end: whole_column().end };
            if n < rows.len() {
                next_in(rows, range) == answered(row_name(rows[n]), Value::Integer(1))
            } else {
                next_in(rows, range) == answered(start.components, Value::EndOfMibView)
            }
        }),
{
    let range = RangeView { start, end: whole_column().end };
    if n < rows.len() {
        let row = rows[n];
        assert(first_found(rows, start, row)) by {
            assert(rows.contains(row));
            assert forall|other: Pair| #[trigger]
                rows.contains(other) && other != row && reached(
                    start,
                    row_name(other),
                ) implies crate::oid::oid_lt(row_name(row), row_name(other)) by {
                let k = choose|k: int| 0 <= k < rows.len() && rows[k] == other;
                assert(reached(start, row_name(rows[k])));
                assert(crate::pairs::pair_lt(rows[n], rows[k]));
                row_names_keep_the_order(row, other);
            }
        }
        assert(within(range.end, row_name(row)));
        let chosen = choose|r: Pair| #[trigger]
            first_found(rows, range.start, r) && within(range.end, row_name(r));
        first_found_is_unique(rows, start, row, chosen);
    } else {
        assert forall|r: Pair| !#[trigger] first_found(rows, start, r) by {
            if rows.contains(r) {
                let k = choose|k: int| 0 <= k < rows.len() && rows[k] == r;
                assert(!reached(start, row_name(rows[k])));
            }
        }
    }
}

/// A search that has found nothing finds nothing when it is repeated, and
/// keeps its name.
pub proof fn an_exhausted_search_stays_exhausted(rows: Seq<Pair>, range: RangeView, n: nat)
    requires
        repetition(rows, range, n).data is EndOfMibView,
    ensures
        repetition(rows, range, n + 1) == repetition(rows, range, n),
{
    let before = searched_from(rows, range, n);
    let after = searched_from(rows, range, n + 1);
    assert(after.start.components == before.start.components);
    assert forall|row: Pair| #[trigger] first_found(rows, after.start, row) && within(
        range.end,
        row_name(row),
    ) implies false by {
        let first = row;
        if before.start.inclusive == 1 {
            // A search that may find its own start has not found it either.
            if exists|r: Pair| rows.contains(r) && #[trigger] row_name(r)
                == before.start.components {
                let own = choose|r: Pair| rows.contains(r) && #[trigger] row_name(r)
                    == before.start.components;
                lemma_own_start(rows, before.start, own, first, range.end);
            } else {
                assert(first_found(rows, before.start, first));
            }
        } else {
            assert(first_found(rows, before.start, first));
        }
    }
}

/// If a search that may find its own start finds nothing before the end of its
/// range, no search behind that start does.
proof fn lemma_own_start(rows: Seq<Pair>, start: OidView, own: Pair, row: Pair, end: OidView)
    requires
        start.inclusive == 1,
        rows.contains(own),
        row_name(own) == start.components,
        crate::oid::oid_lt(start.components, row_name(row)),
        within(end, row_name(row)),
    ensures
        first_found(rows, start, own),
        within(end, row_name(own)),
{
    assert forall|other: Pair| #[trigger]
        rows.contains(other) && other != own && reached(
            start,
            row_name(other),
        ) implies crate::oid::oid_lt(row_name(own), row_name(other)) by {
        row_names_keep_the_order(own, other);
    }
    if end.components.len() > 0 {
        crate::oid::oid_order_is_transitive(row_name(own), row_name(row), end.components);
    }
}

/// Every interface has a row in which it is the lower one and a row in which it
/// is the higher one; and a zero index stands only where an interface has no
/// neighbour on that side.
pub proof fn every_interface_has_a_row_on_each_side(indexes: Set<u32>, pairs: Seq<Pair>, index: u32)
    requires
        indexes.contains(index),
        !indexes.contains(0),
        forall|p: Pair| #[trigger]
            pairs.contains(p) ==> indexes.contains(p.0) && indexes.contains(p.1),
    ensures
        exists|row: Pair| #[trigger] is_row(indexes, pairs, row) && row.1 == index,
        exists|row: Pair| #[trigger] is_row(indexes, pairs, row) && row.0 == index,
        is_row(indexes, pairs, (0, index)) <==> !exists|p: Pair| #[trigger]
            pairs.contains(p) && p.1 == index,
        is_row(indexes, pairs, (index, 0)) <==> !exists|p: Pair| #[trigger]
            pairs.contains(p) && p.0 == index,
        !is_row(indexes, pairs, (0, 0)),
{
    if exists|p: Pair| #[trigger] pairs.contains(p) && p.1 == index {
        let p = choose|p: Pair| #[trigger] pairs.contains(p) && p.1 == index;
        assert(is_row(indexes, pairs, p) && p.1 == index);
    } else {
        assert(is_row(indexes, pairs, (0u32, index)));
    }
    if exists|p: Pair| #[trigger] pairs.contains(p) && p.0 == index {
        let p = choose|p: Pair| #[trigger] pairs.contains(p) && p.0 == index;
        assert(is_row(indexes, pairs, p) && p.0 == index);
    } else {
        assert(is_row(indexes, pairs, (index, 0u32)));
    }
}

/// How many rounds there are from number `n` on.
pub open spec fn round_count(rows: Seq<Pair>, ranges: Seq<RangeView>, n: nat, max: nat) -> nat
    decreases max - n,
{
    if n >= max {
        0
    } else if exhausted(round(rows, ranges, n)) {
        1
    } else {
        1 + round_count(rows, ranges, n + 1, max)
    }
}

/// The rounds from number `n` on stand one after the other, each as long as there are
/// ranges; there are as many as are asked for, unless one finds nothing, which is the
/// last one then.
pub proof fn rounds_go_on_until_one_finds_nothing(
    rows: Seq<Pair>,
    ranges: Seq<RangeView>,
    n: nat,
    max: nat,
)
    requires
        n <= max,
    ensures
        rounds(rows, ranges, n, max).len() == round_count(rows, ranges, n, max) * ranges.len(),
        n + round_count(rows, ranges, n, max) <= max,
        forall|m: nat, j: int|
            #![trigger repetition(rows, ranges[j], n + m)]
            m < round_count(rows, ranges, n, max) && 0 <= j < ranges.len() ==> {
                &&& 0 <= m * ranges.len() + j < rounds(rows, ranges, n, max).len()
                &&& rounds(rows, ranges, n, max)[m * ranges.len() + j] == repetition(
                    rows,
                    ranges[j],
                    n + m,
                )
            },
        forall|m: nat|
            m + 1 < round_count(rows, ranges, n, max) ==> !exhausted(
                #[trigger] round(rows, ranges, n + m),
            ),
        n + round_count(rows, ranges, n, max) < max ==> round_count(rows, ranges, n, max) > 0
            && exhausted(
            round(rows, ranges, (n + round_count(rows, ranges, n, max) - 1) as nat),
        ),
    decreases max - n,
{
    let width = ranges.len();
    let count = round_count(rows, ranges, n, max);
    let all = rounds(rows, ranges, n, max);
    if n < max {
        let this = round(rows, ranges, n);
        if exhausted(this) {
            assert(count * width == width) by (nonlinear_arith)
                requires
                    count == 1,
            ;
            assert forall|m: nat, j: int|
                #![trigger repetition(rows, ranges[j], n + m)]
                m < count && 0 <= j < width implies 0 <= m * width + j < all.len() && all[m
                * width + j] == repetition(rows, ranges[j], n + m) by {
                assert(m * width == 0) by (nonlinear_arith)
                    requires
                        m == 0,
                ;
            }
        } else {
            let rest = rounds(rows, ranges, n + 1, max);
            let others = round_count(rows, ranges, n + 1, max);
            rounds_go_on_until_one_finds_nothing(rows, ranges, n + 1, max);
            assert(count * width == width + others * width) by (nonlinear_arith)
                requires
                    count == 1 + others,
            ;
            assert forall|m: nat, j: int|
                #![trigger repetition(rows, ranges[j], n + m)]
                m < count && 0 <= j < width implies 0 <= m * width + j < all.len() && all[m
                * width + j] == repetition(rows, ranges[j], n + m) by {
                if m == 0 {
                    assert(m * width == 0) by (nonlinear_arith)
                        requires
                            m == 0,
                    ;
                    assert(all[j] == this[j]);
                } else {
                    let k = (m - 1) as nat;
                    assert(m * width == width + k * width) by (nonlinear_arith)
                        requires
                            m == k + 1,
                    ;
                    assert(repetition(rows, ranges[j], (n + 1) + k) == rest[k * width + j]);
                    assert(all[m * width + j] == rest[k * width + j]);
                }
            }
            assert forall|m: nat| m + 1 < count implies !exhausted(
                #[trigger] round(rows, ranges, n + m),
            ) by {
                if m > 0 {
                    let k = (m - 1) as nat;
                    assert(!exhausted(round(rows, ranges, (n + 1) + k)));
                }
            }
        }
    } else {
        assert(count * width == 0) by (nonlinear_arith)
            requires
                count == 0,
        ;
    }
}

} // verus!

//! Object identifiers and their order.

use vstd::prelude::*;

verus! {

/// An object identifier. As the start of a search it also says whether the
/// search may find that very identifier: `inclusive` is then 1.
#[derive(Debug)]
pub struct Oid {
    pub components: Vec<u32>,
    pub inclusive: u8,
}

/// The value of an [`Oid`].
pub struct OidView {
    pub components: Seq<u32>,
    pub inclusive: u8,
}

impl View for Oid {
    type V = OidView;

    open spec fn view(&self) -> OidView {
        OidView { components: self.components@, inclusive: self.inclusive }
    }
}

/// The order of identifiers: the first component that differs decides, and a
/// prefix stands before what it is a prefix of.
pub open spec fn oid_lt(a: Seq<u32>, b: Seq<u32>) -> bool {
    exists|k: int| #[trigger] lower_from(a, b, k)
}

/// Whether `a` and `b` agree before position `k`, and `a` is lower from there.
pub open spec fn lower_from(a: Seq<u32>, b: Seq<u32>, k: int) -> bool {
    &&& 0 <= k <= a.len()
    &&& k < b.len()
    &&& a.take(k) == b.take(k)
    &&& k == a.len() || a[k] < b[k]
}

/// The order is irreflexive.
pub proof fn oid_order_is_irreflexive(a: Seq<u32>)
    ensures
        !oid_lt(a, a),
{
}

/// Of two different identifiers one is before the other, and only one.
pub proof fn oid_order_is_total(a: Seq<u32>, b: Seq<u32>)
    ensures
        a != b ==> (oid_lt(a, b) <==> !oid_lt(b, a)),
{
    if a != b {
        let k = lemma_first_difference(a, b);
        if oid_lt(a, b) && oid_lt(b, a) {
            let i = choose|i: int| #[trigger] lower_from(a, b, i);
            let j = choose|j: int| #[trigger] lower_from(b, a, j);
            if i < j {
                assert(b.take(j)[i] == a.take(j)[i]);
            } else if j < i {
                assert(a.take(i)[j] == b.take(i)[j]);
            }
        } else if k == a.len() || (k < b.len() && a[k] < b[k]) {
            assert(lower_from(a, b, k));
        } else {
            assert(lower_from(b, a, k));
        }
    }
}

/// The order is transitive.
pub proof fn oid_order_is_transitive(a: Seq<u32>, b: Seq<u32>, c: Seq<u32>)
    requires
        oid_lt(a, b),
        oid_lt(b, c),
    ensures
        oid_lt(a, c),
{
    let i = choose|i: int| #[trigger] lower_from(a, b, i);
    let j = choose|j: int| #[trigger] lower_from(b, c, j);
    let k = if i < j {
        i
    } else {
        j
    };
    assert(a.take(k) =~= c.take(k)) by {
        assert forall|n: int| 0 <= n < k implies a[n] == c[n] by {
            assert(a.take(i)[n] == b.take(i)[n]);
            assert(b.take(j)[n] == c.take(j)[n]);
        }
    }
    if i < j {
        assert(b.take(j)[i] == c.take(j)[i]);
    } else if j < i {
        assert(a.take(i)[j] == b.take(i)[j]);
    }
    assert(lower_from(a, c, k));
}

/// The first position where two different identifiers differ.
proof fn lemma_first_difference(a: Seq<u32>, b: Seq<u32>) -> (k: int)
    requires
        a != b,
    ensures
        0 <= k <= a.len(),
        k <= b.len(),
        a.take(k) == b.take(k),
        k < a.len() || k < b.len(),
        k < a.len() && k < b.len() ==> a[k] != b[k],
    decreases a.len() + b.len(),
{
    if a.len() == 0 || b.len() == 0 {
        assert(a.take(0) =~= b.take(0));
        assert(a.len() > 0 || b.len() > 0) by {
            if a.len() == 0 && b.len() == 0 {
                assert(a =~= b);
            }
        }
        0
    } else if a[0] != b[0] {
        assert(a.take(0) =~= b.take(0));
        0
    } else {
        let c = a.skip(1);
        let d = b.skip(1);
        assert(a =~= seq![a[0]] + c);
        assert(b =~= seq![b[0]] + d);
        let k = lemma_first_difference(c, d);
        assert(a.take(k + 1) =~= seq![a[0]] + c.take(k));
        assert(b.take(k + 1) =~= seq![b[0]] + d.take(k));
        k + 1
    }
}

/// Whether one identifier is before another.
pub fn is_before(a: &Vec<u32>, b: &Vec<u32>) -> (before: bool)
    ensures
        before == oid_lt(a@, b@),
{
    let mut k: usize = 0;
    while k < a.len() && k < b.len() && a[k] == b[k]
        invariant
            k <= a@.len(),
            k <= b@.len(),
            a@.take(k as int) == b@.take(k as int),
        decreases a@.len() - k,
    {
        proof {
            assert(a@.take(k + 1) =~= a@.take(k as int).push(a@[k as int]));
            assert(b@.take(k + 1) =~= b@.take(k as int).push(b@[k as int]));
        }
        k = k + 1;
    }
    let before: bool = k < b.len() && (k == a.len() || a[k] < b[k]);
    proof {
        if before {
            assert(lower_from(a@, b@, k as int));
        } else if k < a@.len() {
            assert(lower_from(b@, a@, k as int));
            oid_order_is_total(a@, b@);
        } else {
            assert(a@ =~= a@.take(k as int));
            assert(b@ =~= b@.take(k as int));
            oid_order_is_irreflexive(a@);
        }
    }
    before
}

/// Whether two identifiers have the same components.
pub fn same_components(a: &Vec<u32>, b: &Vec<u32>) -> (same: bool)
    ensures
        same == (a@ == b@),
{
    if a.len() != b.len() {
        return false;
    }
    let mut k: usize = 0;
    while k < a.len()
        invariant
            k <= a@.len() == b@.len(),
            forall|i: int| 0 <= i < k ==> a@[i] == b@[i],
        decreases a@.len() - k,
    {
        if a[k] != b[k] {
            return false;
        }
        k = k + 1;
    }
    assert(a@ =~= b@);
    true
}

impl Oid {
    /// The identifier with these components.
    pub fn new(components: Vec<u32>) -> (oid: Self)
        ensures
            oid@ == (OidView { components: components@, inclusive: 0 }),
    {
        Self { components, inclusive: 0 }
    }

    /// Whether the identifier has no component.
    pub fn is_null(&self) -> (null: bool)
        ensures
            null == (self@.components.len() == 0),
    {
        self.components.len() == 0
    }

    /// A copy of the identifier.
    pub fn copy(&self) -> (oid: Self)
        ensures
            oid@ == self@,
    {
        Self { components: self.components.clone(), inclusive: self.inclusive }
    }
}

/// Identifiers are equal if their components are: whether a search may find
/// the identifier itself is no part of what it names.
impl PartialEq for Oid {
    fn eq(&self, other: &Self) -> (same: bool) {
        same_components(&self.components, &other.components)
    }
}

impl vstd::std_specs::cmp::PartialEqSpecImpl for Oid {
    open spec fn obeys_eq_spec() -> bool {
        true
    }

    open spec fn eq_spec(&self, other: &Self) -> bool {
        self@.components == other@.components
    }
}

} // verus!

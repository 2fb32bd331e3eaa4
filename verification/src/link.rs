//! Network interfaces as they are observed, and the stack that they form.

use vstd::prelude::*;

use std::collections::{BTreeMap, BTreeSet};

use crate::error::{invalid, Error, ErrorKind};
use crate::pairs::{insert_pair, Pair};
use crate::text::{push_decimal, quote};

verus! {

broadcast use vstd::std_specs::btree::group_btree_axioms;

/// The kinds of interface that matter for stacking.
#[derive(Clone, Copy, Debug, PartialEq, Eq, Structural)]
pub enum LinkKind {
    Bond,
    Bridge,
    Vlan,
    MacVlan,
    IpVlan,
    MacVtap,
    Vxlan,
    Veth,
    Other,
}

/// One interface as the kernel reports it.
#[derive(Clone, Debug, PartialEq, Eq)]
pub struct ObservedLink {
    pub index: u32,
    pub name: String,
    pub kind: LinkKind,
    pub controller: Option<u32>,
    pub lower: Option<u32>,
    pub lower_netnsid: Option<i32>,
    pub vxlan_lower: Option<u32>,
}

/// The value of an [`ObservedLink`].
pub struct ObservedView {
    pub index: u32,
    pub name: Seq<char>,
    pub kind: LinkKind,
    pub controller: Option<u32>,
    pub lower: Option<u32>,
    pub lower_netnsid: Option<i32>,
    pub vxlan_lower: Option<u32>,
}

impl View for ObservedLink {
    type V = ObservedView;

    open spec fn view(&self) -> ObservedView {
        ObservedView {
            index: self.index,
            name: self.name@,
            kind: self.kind,
            controller: self.controller,
            lower: self.lower,
            lower_netnsid: self.lower_netnsid,
            vxlan_lower: self.vxlan_lower,
        }
    }
}

impl ObservedLink {
    /// An interface of no particular kind, with no reference to another one.
    pub fn plain(index: u32, name: &str) -> (link: Self)
        ensures
            link.index == index,
            link.name@ == name@,
            link.kind == LinkKind::Other,
            link.controller is None,
            link.lower is None,
            link.lower_netnsid is None,
            link.vxlan_lower is None,
    {
        Self::of_kind(index, name, LinkKind::Other)
    }

    /// An interface of the given kind, with no reference to another one.
    pub fn of_kind(index: u32, name: &str, kind: LinkKind) -> (link: Self)
        ensures
            link.index == index,
            link.name@ == name@,
            link.kind == kind,
            link.controller is None,
            link.lower is None,
            link.lower_netnsid is None,
            link.vxlan_lower is None,
    {
        Self {
            index,
            name: name.to_owned(),
            kind,
            controller: None,
            lower: None,
            lower_netnsid: None,
            vxlan_lower: None,
        }
    }

    /// The same interface, enslaved to a controller.
    pub fn with_controller(self, controller: u32) -> (link: Self)
        ensures
            link == (Self { controller: Some(controller), ..self }),
    {
        Self { controller: Some(controller), ..self }
    }

    /// The same interface, on top of another one.
    pub fn with_lower(self, lower: u32) -> (link: Self)
        ensures
            link == (Self { lower: Some(lower), ..self }),
    {
        Self { lower: Some(lower), ..self }
    }

    /// The same interface, on top of one in another network namespace.
    pub fn with_remote_lower(self, lower: u32) -> (link: Self)
        ensures
            link == (Self { lower: Some(lower), lower_netnsid: Some(0), ..self }),
    {
        Self { lower: Some(lower), lower_netnsid: Some(0), ..self }
    }

    /// The same interface, tunnelling through another one.
    pub fn with_vxlan_lower(self, lower: u32) -> (link: Self)
        ensures
            link == (Self { vxlan_lower: Some(lower), ..self }),
    {
        Self { vxlan_lower: Some(lower), ..self }
    }
}

/// One interface that is directly on top of another.
#[derive(Clone, Copy, Debug, PartialEq, Eq, PartialOrd, Ord, Structural)]
pub struct StackRelationship {
    pub higher: u32,
    pub lower: u32,
}

impl StackRelationship {
    /// The relationship as a pair of indexes.
    pub open spec fn pair(self) -> Pair {
        (self.higher, self.lower)
    }
}

/// Whether a link with this index is among the links.
pub open spec fn known(links: Seq<ObservedLink>, index: u32) -> bool {
    exists|j: int| 0 <= j < links.len() && #[trigger] links[j].index == index
}

/// The position of a link with this index.
pub open spec fn position(links: Seq<ObservedLink>, index: u32) -> int {
    choose|j: int| 0 <= j < links.len() && #[trigger] links[j].index == index
}

/// Whether a link of this kind always stands on the link that it names as its
/// lower one.
pub open spec fn needs_lower(kind: LinkKind) -> bool {
    kind is Vlan || kind is MacVlan || kind is IpVlan || kind is MacVtap
}

/// Whether a link of this kind stands on top of the links that it controls.
pub open spec fn stacks_members(kind: LinkKind) -> bool {
    kind is Bond || kind is Bridge
}

/// The start of most refusals: which interface they are about.
pub open spec fn subject(link: ObservedLink) -> Seq<char> {
    "interface "@ + crate::text::quoted(link.name@) + " (index "@ + crate::text::decimal(
        link.index as nat,
    ) + ")"@
}

/// Why link `i` cannot be told apart from the links before it, if it cannot.
pub open spec fn identity_fault(links: Seq<ObservedLink>, i: int) -> Option<Seq<char>> {
    let link = links[i];
    let earlier = links.take(i);
    let index = crate::text::decimal(link.index as nat);
    let name = crate::text::quoted(link.name@);
    if link.index == 0 || link.index > i32::MAX {
        Some("interface "@ + name + " has invalid index "@ + index)
    } else if link.name@.len() == 0 {
        Some("interface at index "@ + index + " has an empty name"@)
    } else if known(earlier, link.index) {
        let existing = earlier[position(earlier, link.index)];
        Some(
            "interface "@ + name + " duplicates index "@ + index + " of interface "@
                + crate::text::quoted(existing.name@),
        )
    } else if exists|j: int| 0 <= j < i && #[trigger] links[j].name@ == link.name@ {
        let j = choose|j: int| 0 <= j < i && #[trigger] links[j].name@ == link.name@;
        Some(
            subject(link) + " duplicates the name of interface at index "@ + crate::text::decimal(
                links[j].index as nat,
            ),
        )
    } else {
        None
    }
}

/// Why the controller that link `i` names cannot be one, if it cannot.
pub open spec fn controller_fault(links: Seq<ObservedLink>, i: int) -> Option<Seq<char>> {
    let link = links[i];
    match link.controller {
        None => None,
        Some(controller) => if !known(links, controller) {
            Some(
                subject(link) + " references unknown controller index "@ + crate::text::decimal(
                    controller as nat,
                ),
            )
        } else if stacks_members(links[position(links, controller)].kind) && controller
            == link.index {
            Some(subject(link) + " references itself as controller"@)
        } else {
            None
        },
    }
}

/// Why the lower link that link `i` names cannot be one, if it cannot.
pub open spec fn lower_fault(links: Seq<ObservedLink>, i: int) -> Option<Seq<char>> {
    let link = links[i];
    if needs_lower(link.kind) {
        match link.lower {
            None => Some(subject(link) + " has no lower sub-layer reference"@),
            Some(lower) => if link.lower_netnsid is Some {
                Some(
                    subject(link) + " references lower sub-layer index "@ + crate::text::decimal(
                        lower as nat,
                    ) + " in another network namespace"@,
                )
            } else if lower == link.index {
                Some(subject(link) + " references itself as lower sub-layer"@)
            } else if !known(links, lower) {
                Some(
                    subject(link) + " references unknown lower sub-layer index "@
                        + crate::text::decimal(lower as nat),
                )
            } else {
                None
            },
        }
    } else if link.kind is Vxlan && link.lower_netnsid is None && link.vxlan_lower == Some(
        link.index,
    ) {
        Some(subject(link) + " references itself as lower sub-layer"@)
    } else {
        None
    }
}

/// The first reason among the first `n` links why the links are no inventory.
pub open spec fn identity_refusal(links: Seq<ObservedLink>, n: int) -> Option<Seq<char>>
    decreases n,
{
    if n <= 0 {
        None
    } else {
        match identity_refusal(links, n - 1) {
            Some(fault) => Some(fault),
            None => identity_fault(links, n - 1),
        }
    }
}

/// The first reason among the first `n` links why the links are no stack.
pub open spec fn stacking_refusal(links: Seq<ObservedLink>, n: int) -> Option<Seq<char>>
    decreases n,
{
    if n <= 0 {
        None
    } else {
        match stacking_refusal(links, n - 1) {
            Some(fault) => Some(fault),
            None => match controller_fault(links, n - 1) {
                Some(fault) => Some(fault),
                None => lower_fault(links, n - 1),
            },
        }
    }
}

/// Why the links are refused, if they are. What tells the links apart is
/// looked at first, in their order, and then how they are stacked.
pub open spec fn refusal(links: Seq<ObservedLink>) -> Option<Seq<char>> {
    match identity_refusal(links, links.len() as int) {
        Some(fault) => Some(fault),
        None => stacking_refusal(links, links.len() as int),
    }
}

/// The pair that link `i` adds by naming a controller: a bond or a bridge is on
/// top of its members.
pub open spec fn controller_pair(links: Seq<ObservedLink>, i: int) -> Option<Pair> {
    match links[i].controller {
        Some(controller) => if known(links, controller) && stacks_members(
            links[position(links, controller)].kind,
        ) {
            Some((controller, links[i].index))
        } else {
            None
        },
        None => None,
    }
}

/// The pair that link `i` adds by naming the link that it stands on.
pub open spec fn lower_pair(links: Seq<ObservedLink>, i: int) -> Option<Pair> {
    let link = links[i];
    if needs_lower(link.kind) {
        match link.lower {
            Some(lower) => Some((link.index, lower)),
            None => None,
        }
    } else if link.kind is Vxlan && link.lower_netnsid is None {
        match link.vxlan_lower {
            Some(lower) => if known(links, lower) {
                Some((link.index, lower))
            } else {
                None
            },
            None => None,
        }
    } else {
        None
    }
}

/// Whether one of the first `n` links puts the pair's first index directly on
/// top of its second.
pub open spec fn stacked(links: Seq<ObservedLink>, n: int, pair: Pair) -> bool {
    exists|i: int|
        0 <= i < n && (#[trigger] controller_pair(links, i) == Some(pair) || lower_pair(links, i)
            == Some(pair))
}

/// Whether the links before position `n` all differ in their index and in
/// their name.
spec fn distinct(links: Seq<ObservedLink>, n: int) -> bool {
    forall|a: int, b: int|
        #![trigger links[a], links[b]]
        0 <= a < b < n ==> links[a].index != links[b].index && links[a].name@ != links[b].name@
}

/// The interfaces of a system and which of them is directly on top of which.
#[derive(Debug)]
pub struct Topology {
    interfaces: BTreeSet<u32>,
    relationships: Vec<StackRelationship>,
}

impl Topology {
    /// The indexes of all interfaces.
    pub closed spec fn indexes(&self) -> Set<u32> {
        self.interfaces@
    }

    /// The stack relationships, as pairs in ascending order.
    pub closed spec fn pairs(&self) -> Seq<Pair> {
        self.relationships@.map_values(|r: StackRelationship| r.pair())
    }

    /// Every relationship is between two different interfaces of the system,
    /// and occurs once.
    #[verifier::type_invariant]
    pub closed spec fn well_formed(&self) -> bool {
        &&& crate::pairs::ascending(self.pairs())
        &&& self.indexes().finite()
        &&& forall|i: u32| #[trigger] self.indexes().contains(i) ==> 0 < i <= i32::MAX
        &&& forall|p: Pair| #[trigger]
            self.pairs().contains(p) ==> {
                &&& p.0 != p.1
                &&& self.indexes().contains(p.0)
                &&& self.indexes().contains(p.1)
            }
    }
}

/// Builds the text that names an interface and its index.
fn subject_text(link: &ObservedLink) -> (text: String)
    ensures
        text@ == subject(*link),
{
    let mut text: String = "interface ".to_owned();
    text.append(quote(link.name.as_str()).as_str());
    text.append(" (index ");
    push_decimal(&mut text, link.index as u64);
    text.append(")");
    text
}

proof fn lemma_identity_refusal_kept(links: Seq<ObservedLink>, n: int, m: int)
    requires
        0 <= n <= m,
        identity_refusal(links, n) is Some,
    ensures
        identity_refusal(links, m) == identity_refusal(links, n),
    decreases m,
{
    if n < m {
        lemma_identity_refusal_kept(links, n, m - 1);
    }
}

proof fn lemma_stacking_refusal_kept(links: Seq<ObservedLink>, n: int, m: int)
    requires
        0 <= n <= m,
        stacking_refusal(links, n) is Some,
    ensures
        stacking_refusal(links, m) == stacking_refusal(links, n),
    decreases m,
{
    if n < m {
        lemma_stacking_refusal_kept(links, n, m - 1);
    }
}

/// The position of the first of the first `n` links that has this name.
fn find_name(links: &Vec<ObservedLink>, n: usize, name: &String) -> (found: Option<usize>)
    requires
        n <= links@.len(),
    ensures
        match found {
            Some(j) => j < n && links@[j as int].name@ == name@,
            None => forall|j: int| 0 <= j < n ==> #[trigger] links@[j].name@ != name@,
        },
{
    let mut j: usize = 0;
    while j < n
        invariant
            j <= n <= links@.len(),
            forall|k: int| 0 <= k < j ==> #[trigger] links@[k].name@ != name@,
        decreases n - j,
    {
        if links[j].name == *name {
            return Some(j);
        }
        j = j + 1;
    }
    None
}

/// Finds where each index occurs, or the first reason why the links cannot be
/// told apart.
fn locate(links: &Vec<ObservedLink>) -> (located: Result<BTreeMap<u32, usize>, Error>)
    ensures
        match located {
            Ok(by_index) => {
                &&& identity_refusal(links@, links@.len() as int) is None
                &&& distinct(links@, links@.len() as int)
                &&& forall|i: int|
                    0 <= i < links@.len() ==> 0 < (#[trigger] links@[i]).index <= i32::MAX
                &&& forall|k: u32| #[trigger] by_index@.contains_key(k) <==> known(links@, k)
                &&& forall|k: u32| #[trigger]
                    by_index@.contains_key(k) ==> by_index@[k] < links@.len()
                        && links@[by_index@[k] as int].index == k
            },
            Err(error) => {
                &&& error@.kind == ErrorKind::InvalidData
                &&& identity_refusal(links@, links@.len() as int) == Some(error@.message)
            },
        },
{
    let mut by_index: BTreeMap<u32, usize> = BTreeMap::new();
    let mut i: usize = 0;
    while i < links.len()
        invariant
            i <= links@.len(),
            identity_refusal(links@, i as int) is None,
            distinct(links@, i as int),
            forall|j: int| 0 <= j < i ==> 0 < (#[trigger] links@[j]).index <= i32::MAX,
            forall|k: u32| #[trigger]
                by_index@.contains_key(k) ==> by_index@[k] < i && links@[by_index@[k] as int].index
                    == k,
            forall|j: int| 0 <= j < i ==> by_index@.contains_key((#[trigger] links@[j]).index),
        decreases links@.len() - i,
    {
        let link: &ObservedLink = &links[i];
        let ghost earlier = links@.take(i as int);
        proof {
            if identity_fault(links@, i as int) is Some {
                lemma_identity_refusal_kept(links@, i + 1, links@.len() as int);
            }
        }
        if link.index == 0 || link.index > i32::MAX as u32 {
            let mut text: String = "interface ".to_owned();
            text.append(quote(link.name.as_str()).as_str());
            text.append(" has invalid index ");
            push_decimal(&mut text, link.index as u64);
            return Err(invalid(text));
        }
        if link.name.as_str().unicode_len() == 0 {
            let mut text: String = "interface at index ".to_owned();
            push_decimal(&mut text, link.index as u64);
            text.append(" has an empty name");
            return Err(invalid(text));
        }
        if let Some(existing) = by_index.get(&link.index) {
            let existing: usize = *existing;
            proof {
                assert(earlier[existing as int].index == link.index);
                let j = position(earlier, link.index);
                assert(links@[j].index == link.index);
                assert(j == existing);
            }
            let mut text: String = "interface ".to_owned();
            text.append(quote(link.name.as_str()).as_str());
            text.append(" duplicates index ");
            push_decimal(&mut text, link.index as u64);
            text.append(" of interface ");
            text.append(quote(links[existing].name.as_str()).as_str());
            return Err(invalid(text));
        }
        proof {
            assert forall|j: int| 0 <= j < i implies #[trigger] links@[j].index != link.index by {
                assert(by_index@.contains_key(links@[j].index));
            }
            if known(earlier, link.index) {
                let j = position(earlier, link.index);
                assert(links@[j].index == link.index);
            }
        }
        if let Some(existing) = find_name(links, i, &link.name) {
            proof {
                assert(links@[existing as int].name@ == link.name@);
                let j = choose|j: int| 0 <= j < i && #[trigger] links@[j].name@ == link.name@;
                assert(j == existing) by {
                    if j < existing {
                        assert(links@[j].name@ != links@[existing as int].name@);
                    } else if existing < j {
                        assert(links@[existing as int].name@ != links@[j].name@);
                    }
                }
            }
            let mut text: String = subject_text(link);
            text.append(" duplicates the name of interface at index ");
            push_decimal(&mut text, links[existing].index as u64);
            return Err(invalid(text));
        }
        let _ = by_index.insert(link.index, i);
        i = i + 1;
    }
    proof {
        assert forall|k: u32| #[trigger] by_index@.contains_key(k) <==> known(links@, k) by {
            if known(links@, k) {
                let j = position(links@, k);
                assert(by_index@.contains_key(links@[j].index));
            }
        }
    }
    Ok(by_index)
}

/// The pair that link `i` adds by naming a controller, or why it cannot name
/// that one.
fn resolve_controller(
    links: &Vec<ObservedLink>,
    by_index: &BTreeMap<u32, usize>,
    i: usize,
) -> (resolved: Result<Option<Pair>, Error>)
    requires
        i < links@.len(),
        distinct(links@, links@.len() as int),
        forall|k: u32| #[trigger] by_index@.contains_key(k) <==> known(links@, k),
        forall|k: u32| #[trigger]
            by_index@.contains_key(k) ==> by_index@[k] < links@.len()
                && links@[by_index@[k] as int].index == k,
    ensures
        match resolved {
            Ok(pair) => controller_fault(links@, i as int) is None && pair == controller_pair(
                links@,
                i as int,
            ),
            Err(error) => error@.kind == ErrorKind::InvalidData && controller_fault(
                links@,
                i as int,
            ) == Some(error@.message),
        },
{
    let link: &ObservedLink = &links[i];
    let controller: u32 = match link.controller {
        None => {
            return Ok(None);
        },
        Some(controller) => controller,
    };
    let at: usize = match by_index.get(&controller) {
        None => {
            let mut text: String = subject_text(link);
            text.append(" references unknown controller index ");
            push_decimal(&mut text, controller as u64);
            return Err(invalid(text));
        },
        Some(at) => *at,
    };
    proof {
        assert(links@[at as int].index == controller);
        let j = position(links@, controller);
        assert(links@[j].index == controller);
        assert(j == at) by {
            if j < at {
                assert(links@[j].index != links@[at as int].index);
            } else if at < j {
                assert(links@[at as int].index != links@[j].index);
            }
        }
    }
    match links[at].kind {
        LinkKind::Bond | LinkKind::Bridge => {
            if controller == link.index {
                let mut text: String = subject_text(link);
                text.append(" references itself as controller");
                return Err(invalid(text));
            }
            Ok(Some((controller, link.index)))
        },
        _ => Ok(None),
    }
}

/// The pair that link `i` adds by naming its lower link, or why it cannot name
/// that one.
fn resolve_lower(
    links: &Vec<ObservedLink>,
    by_index: &BTreeMap<u32, usize>,
    i: usize,
) -> (resolved: Result<Option<Pair>, Error>)
    requires
        i < links@.len(),
        forall|k: u32| #[trigger] by_index@.contains_key(k) <==> known(links@, k),
    ensures
        match resolved {
            Ok(pair) => {
                &&& lower_fault(links@, i as int) is None
                &&& pair == lower_pair(links@, i as int)
            },
            Err(error) => error@.kind == ErrorKind::InvalidData && lower_fault(links@, i as int)
                == Some(error@.message),
        },
{
    let link: &ObservedLink = &links[i];
    proof {
        assert(links@[i as int].index == link.index);
        assert(known(links@, link.index));
    }
    match link.kind {
        LinkKind::Vlan | LinkKind::MacVlan | LinkKind::IpVlan | LinkKind::MacVtap => {
            let lower: u32 = match link.lower {
                None => {
                    let mut text: String = subject_text(link);
                    text.append(" has no lower sub-layer reference");
                    return Err(invalid(text));
                },
                Some(lower) => lower,
            };
            if link.lower_netnsid.is_some() {
                let mut text: String = subject_text(link);
                text.append(" references lower sub-layer index ");
                push_decimal(&mut text, lower as u64);
                text.append(" in another network namespace");
                return Err(invalid(text));
            }
            if lower == link.index {
                let mut text: String = subject_text(link);
                text.append(" references itself as lower sub-layer");
                return Err(invalid(text));
            }
            if !by_index.contains_key(&lower) {
                let mut text: String = subject_text(link);
                text.append(" references unknown lower sub-layer index ");
                push_decimal(&mut text, lower as u64);
                return Err(invalid(text));
            }
            Ok(Some((link.index, lower)))
        },
        LinkKind::Vxlan => {
            if link.lower_netnsid.is_some() {
                return Ok(None);
            }
            match link.vxlan_lower {
                Some(lower) => {
                    if !by_index.contains_key(&lower) {
                        return Ok(None);
                    }
                    if lower == link.index {
                        let mut text: String = subject_text(link);
                        text.append(" references itself as lower sub-layer");
                        return Err(invalid(text));
                    }
                    Ok(Some((link.index, lower)))
                },
                None => Ok(None),
            }
        },
        _ => Ok(None),
    }
}

impl Topology {
    /// Makes a topology of the links of one inventory. Every link needs an index
    /// that a management protocol can carry, and a name, neither shared with
    /// another link; the links that it refers to have to be there.
    pub fn from_observed(links: Vec<ObservedLink>) -> (made: Result<Self, Error>)
        ensures
            match made {
                Ok(topology) => {
                    &&& refusal(links@) is None
                    &&& topology.indexes() == Set::new(|index: u32| known(links@, index))
                    &&& topology.pairs().to_set() == Set::new(
                        |pair: Pair| stacked(links@, links@.len() as int, pair),
                    )
                    &&& crate::pairs::ascending(topology.pairs())
                },
                Err(error) => {
                    &&& error@.kind == ErrorKind::InvalidData
                    &&& refusal(links@) == Some(error@.message)
                },
            },
    {
        let by_index: BTreeMap<u32, usize> = match locate(&links) {
            Ok(by_index) => by_index,
            Err(error) => {
                return Err(error);
            },
        };
        let mut interfaces: BTreeSet<u32> = BTreeSet::new();
        let mut pairs: Vec<Pair> = Vec::new();
        let ghost count = links@.len() as int;
        let mut i: usize = 0;
        while i < links.len()
            invariant
                count == links@.len(),
                i <= count,
                identity_refusal(links@, count) is None,
                stacking_refusal(links@, i as int) is None,
                distinct(links@, count),
                forall|j: int| 0 <= j < count ==> 0 < (#[trigger] links@[j]).index <= i32::MAX,
                forall|k: u32| #[trigger] by_index@.contains_key(k) <==> known(links@, k),
                forall|k: u32| #[trigger]
                    by_index@.contains_key(k) ==> by_index@[k] < count
                        && links@[by_index@[k] as int].index == k,
                interfaces@ == Set::new(
                    |k: u32| exists|j: int| 0 <= j < i && #[trigger] links@[j].index == k,
                ),
                interfaces@.finite(),
                crate::pairs::ascending(pairs@),
                forall|p: Pair| #[trigger]
                    pairs@.to_set().contains(p) <==> stacked(links@, i as int, p),
            decreases count - i,
        {
            let ghost before = pairs@.to_set();
            proof {
                if controller_fault(links@, i as int) is Some || lower_fault(links@, i as int)
                    is Some {
                    lemma_stacking_refusal_kept(links@, i + 1, count);
                }
            }
            let controller: Option<Pair> = match resolve_controller(&links, &by_index, i) {
                Ok(pair) => pair,
                Err(error) => {
                    return Err(error);
                },
            };
            let lower: Option<Pair> = match resolve_lower(&links, &by_index, i) {
                Ok(pair) => pair,
                Err(error) => {
                    return Err(error);
                },
            };
            if let Some(pair) = controller {
                insert_pair(&mut pairs, pair);
            }
            if let Some(pair) = lower {
                insert_pair(&mut pairs, pair);
            }
            let ghost old_interfaces = interfaces@;
            let _ = interfaces.insert(links[i].index);
            proof {
                assert forall|p: Pair| #[trigger] pairs@.to_set().contains(p) <==> stacked(
                    links@,
                    i + 1,
                    p,
                ) by {
                    if stacked(links@, i as int, p) {
                        let j = choose|j: int|
                            0 <= j < i && (#[trigger] controller_pair(links@, j) == Some(p)
                                || lower_pair(links@, j) == Some(p));
                        assert(controller_pair(links@, j) == Some(p) || lower_pair(links@, j)
                            == Some(p));
                        assert(before.contains(p));
                    }
                    if controller == Some(p) || lower == Some(p) {
                        assert(controller_pair(links@, i as int) == Some(p) || lower_pair(
                            links@,
                            i as int,
                        ) == Some(p));
                    }
                    if stacked(links@, i + 1, p) {
                        let j = choose|j: int|
                            0 <= j < i + 1 && (#[trigger] controller_pair(links@, j) == Some(p)
                                || lower_pair(links@, j) == Some(p));
                        if j < i {
                            assert(stacked(links@, i as int, p));
                            assert(before.contains(p));
                        }
                    }
                }
                let next = Set::new(
                    |k: u32| exists|j: int| 0 <= j < i + 1 && #[trigger] links@[j].index == k,
                );
                assert forall|k: u32| #[trigger] next.contains(k) <==> interfaces@.contains(k) by {
                    if old_interfaces.contains(k) {
                        let j = choose|j: int| 0 <= j < i && #[trigger] links@[j].index == k;
                        assert(links@[j].index == k);
                    }
                    if k == links@[i as int].index {
                        assert(links@[i as int].index == k);
                    }
                }
                assert(interfaces@ =~= next);
            }
            i = i + 1;
        }
        let mut relationships: Vec<StackRelationship> = Vec::new();
        let mut n: usize = 0;
        while n < pairs.len()
            invariant
                n <= pairs@.len(),
                relationships@.len() == n,
                forall|j: int| 0 <= j < n ==> (#[trigger] relationships@[j]).pair() == pairs@[j],
            decreases pairs@.len() - n,
        {
            relationships.push(StackRelationship { higher: pairs[n].0, lower: pairs[n].1 });
            n = n + 1;
        }
        proof {
            assert(relationships@.map_values(|r: StackRelationship| r.pair()) =~= pairs@);
            assert(interfaces@ =~= Set::new(|index: u32| known(links@, index)));
            assert forall|p: Pair| #[trigger] pairs@.contains(p) implies {
                &&& p.0 != p.1
                &&& interfaces@.contains(p.0)
                &&& interfaces@.contains(p.1)
            } by {
                assert(pairs@.to_set().contains(p));
                lemma_stacked_pair(links@, p);
            }
            assert(pairs@.to_set() =~= Set::new(|pair: Pair| stacked(links@, count, pair)));
        }
        Ok(Self { interfaces, relationships })
    }

    /// The indexes of all interfaces.
    pub fn interfaces(&self) -> (interfaces: &BTreeSet<u32>)
        ensures
            interfaces@ == self.indexes(),
            forall|i: u32| #[trigger] interfaces@.contains(i) ==> 0 < i <= i32::MAX,
    {
        proof {
            use_type_invariant(self);
        }
        &self.interfaces
    }

    /// Which interface is directly on top of which, in ascending order. The two
    /// interfaces of a relationship differ, and both are in the topology.
    pub fn relationships(&self) -> (relationships: &Vec<StackRelationship>)
        ensures
            relationships@.map_values(|r: StackRelationship| r.pair()) == self.pairs(),
            crate::pairs::ascending(self.pairs()),
            forall|p: Pair| #[trigger]
                self.pairs().contains(p) ==> {
                    &&& p.0 != p.1
                    &&& self.indexes().contains(p.0)
                    &&& self.indexes().contains(p.1)
                },
    {
        proof {
            use_type_invariant(self);
        }
        &self.relationships
    }
}

/// In an accepted inventory a pair is made of two different links of it.
proof fn lemma_stacked_pair(links: Seq<ObservedLink>, pair: Pair)
    requires
        stacking_refusal(links, links.len() as int) is None,
        stacked(links, links.len() as int, pair),
    ensures
        pair.0 != pair.1,
        known(links, pair.0),
        known(links, pair.1),
{
    let i = choose|i: int|
        0 <= i < links.len() && (#[trigger] controller_pair(links, i) == Some(pair) || lower_pair(
            links,
            i,
        ) == Some(pair));
    lemma_no_stacking_fault(links, i, links.len() as int);
    assert(links[i].index == links[i].index);
    assert(known(links, links[i].index));
}

/// Links are accepted exactly if none of them has a fault of its own.
pub proof fn accepted_iff_no_link_is_at_fault(links: Seq<ObservedLink>)
    ensures
        refusal(links) is None <==> forall|i: int|
            #![trigger identity_fault(links, i)]
            #![trigger controller_fault(links, i)]
            0 <= i < links.len() ==> {
                &&& identity_fault(links, i) is None
                &&& controller_fault(links, i) is None
                &&& lower_fault(links, i) is None
            },
{
    lemma_identity_refusal(links, links.len() as int);
    lemma_stacking_refusal(links, links.len() as int);
}

/// In accepted links no interface is on top of itself, and both interfaces of
/// a relationship are among the links.
pub proof fn accepted_links_stack_distinct_known_interfaces(links: Seq<ObservedLink>, pair: Pair)
    requires
        refusal(links) is None,
        stacked(links, links.len() as int, pair),
    ensures
        pair.0 != pair.1,
        known(links, pair.0),
        known(links, pair.1),
{
    lemma_stacked_pair(links, pair);
}

/// In accepted links every index belongs to one link only, and so does every
/// name.
pub proof fn accepted_links_are_told_apart(links: Seq<ObservedLink>, i: int, j: int)
    requires
        refusal(links) is None,
        0 <= i < j < links.len(),
    ensures
        links[i].index != links[j].index,
        links[i].name@ != links[j].name@,
{
    lemma_identity_refusal(links, links.len() as int);
    assert(identity_fault(links, j) is None);
    assert(links.take(j)[i].index == links[i].index);
    assert(links[i].name@ == links[i].name@);
}

proof fn lemma_identity_refusal(links: Seq<ObservedLink>, n: int)
    requires
        0 <= n <= links.len(),
    ensures
        identity_refusal(links, n) is None <==> forall|i: int|
            0 <= i < n ==> #[trigger] identity_fault(links, i) is None,
    decreases n,
{
    if n > 0 {
        lemma_identity_refusal(links, n - 1);
    }
}

proof fn lemma_stacking_refusal(links: Seq<ObservedLink>, n: int)
    requires
        0 <= n <= links.len(),
    ensures
        stacking_refusal(links, n) is None <==> forall|i: int|
            #![trigger controller_fault(links, i)]
            #![trigger identity_fault(links, i)]
            0 <= i < n ==> controller_fault(links, i) is None && lower_fault(links, i) is None,
    decreases n,
{
    if n > 0 {
        lemma_stacking_refusal(links, n - 1);
        let _ = controller_fault(links, n - 1);
    }
}

proof fn lemma_no_stacking_fault(links: Seq<ObservedLink>, i: int, n: int)
    requires
        0 <= i < n,
        stacking_refusal(links, n) is None,
    ensures
        controller_fault(links, i) is None,
        lower_fault(links, i) is None,
    decreases n,
{
    if i < n - 1 {
        lemma_no_stacking_fault(links, i, n - 1);
    }
}

/// A link is known exactly if it is among the links.
pub proof fn an_index_is_known_exactly_if_a_link_has_it(links: Seq<ObservedLink>, index: u32)
    ensures
        (exists|j: int| 0 <= j < links.len() && (#[trigger] links[j]).index == index) ==> known(
            links,
            index,
        ),
        (forall|j: int| 0 <= j < links.len() ==> (#[trigger] links[j]).index != index) ==> !known(
            links,
            index,
        ),
{
    if exists|j: int| 0 <= j < links.len() && (#[trigger] links[j]).index == index {
        let j = choose|j: int| 0 <= j < links.len() && (#[trigger] links[j]).index == index;
        assert(links[j].index == index);
    }
}

/// A bond or a bridge is on top of every link that names it as its controller; and
/// no controller of another kind is.
pub proof fn a_bond_or_bridge_is_on_top_of_its_members(
    links: Seq<ObservedLink>,
    member: int,
    controller: int,
)
    requires
        refusal(links) is None,
        0 <= member < links.len(),
        0 <= controller < links.len(),
        links[member].controller == Some(links[controller].index),
        links[controller].kind == LinkKind::Bond || links[controller].kind == LinkKind::Bridge,
    ensures
        stacked(
            links,
            links.len() as int,
            (links[controller].index, links[member].index),
        ),
{
    let index = links[controller].index;
    assert(known(links, index));
    let j = position(links, index);
    assert(links[j].index == index);
    if j < controller {
        accepted_links_are_told_apart(links, j, controller);
    } else if controller < j {
        accepted_links_are_told_apart(links, controller, j);
    }
    assert(controller_pair(links, member) == Some((index, links[member].index)));
}

/// A VLAN, a macvlan, an ipvlan and a macvtap are on top of the link that they name
/// as their lower one, whatever else is said of them.
pub proof fn a_link_with_a_lower_one_is_on_top_of_it(links: Seq<ObservedLink>, i: int, lower: u32)
    requires
        refusal(links) is None,
        0 <= i < links.len(),
        links[i].kind == LinkKind::Vlan || links[i].kind == LinkKind::MacVlan || links[i].kind
            == LinkKind::IpVlan || links[i].kind == LinkKind::MacVtap,
        links[i].lower == Some(lower),
    ensures
        stacked(links, links.len() as int, (links[i].index, lower)),
{
    assert(lower_pair(links, i) == Some((links[i].index, lower)));
    let _ = controller_pair(links, i);
}

/// A VXLAN is on top of the link that it goes through, whatever controls it, if that
/// link is among the links and not in another namespace.
pub proof fn a_vxlan_is_on_top_of_its_underlay(
    links: Seq<ObservedLink>,
    i: int,
    underlay: int,
)
    requires
        refusal(links) is None,
        0 <= i < links.len(),
        0 <= underlay < links.len(),
        links[i].kind == LinkKind::Vxlan,
        links[i].lower_netnsid is None,
        links[i].vxlan_lower == Some(links[underlay].index),
    ensures
        stacked(links, links.len() as int, (links[i].index, links[underlay].index)),
{
    assert(known(links, links[underlay].index));
    assert(lower_pair(links, i) == Some((links[i].index, links[underlay].index)));
    let _ = controller_pair(links, i);
}

/// Whether link `i` says that the second index of a pair is under the first one: as a
/// member of the first, or as the first itself.
pub open spec fn says(links: Seq<ObservedLink>, i: int, pair: Pair) -> bool {
    ||| links[i].index == pair.1 && links[i].controller == Some(pair.0) && exists|j: int|
        0 <= j < links.len() && (#[trigger] links[j]).index == pair.0 && (links[j].kind
            == LinkKind::Bond || links[j].kind == LinkKind::Bridge)
    ||| links[i].index == pair.0 && links[i].lower == Some(pair.1) && (links[i].kind
        == LinkKind::Vlan || links[i].kind == LinkKind::MacVlan || links[i].kind
        == LinkKind::IpVlan || links[i].kind == LinkKind::MacVtap)
    ||| links[i].index == pair.0 && links[i].vxlan_lower == Some(pair.1) && links[i].kind
        == LinkKind::Vxlan && links[i].lower_netnsid is None && exists|j: int|
        0 <= j < links.len() && (#[trigger] links[j]).index == pair.1
}

/// Nothing is on top of anything unless a link says so.
pub proof fn nothing_is_stacked_unless_a_link_says_so(links: Seq<ObservedLink>, pair: Pair)
    requires
        stacked(links, links.len() as int, pair),
    ensures
        exists|i: int| 0 <= i < links.len() && #[trigger] says(links, i, pair),
{
    let i = choose|i: int|
        0 <= i < links.len() && (#[trigger] controller_pair(links, i) == Some(pair) || lower_pair(
            links,
            i,
        ) == Some(pair));
    if controller_pair(links, i) == Some(pair) {
        let j = position(links, pair.0);
        assert(links[j].index == pair.0);
    } else if links[i].kind == LinkKind::Vxlan {
        let j = position(links, pair.1);
        assert(links[j].index == pair.1);
    }
    assert(says(links, i, pair));
}

/// Whether a link can be in an inventory, as far as it goes by itself: it has an
/// index from 1 to 2147483647 and a name.
pub open spec fn named_and_numbered(link: ObservedLink) -> bool {
    1 <= link.index <= 2147483647 && link.name@.len() > 0
}

/// Whether what a link refers to is there: a controller, which is another link if it
/// is a bond or a bridge; and for a link that has to have one, a lower link that is
/// another link and in this namespace. What a VXLAN goes through need not be there,
/// but is another link.
pub open spec fn refers_well(links: Seq<ObservedLink>, i: int) -> bool {
    &&& links[i].controller matches Some(controller) ==> exists|j: int|
        0 <= j < links.len() && (#[trigger] links[j]).index == controller && (j == i ==> links[j].kind
            != LinkKind::Bond && links[j].kind != LinkKind::Bridge)
    &&& links[i].kind == LinkKind::Vlan || links[i].kind == LinkKind::MacVlan || links[i].kind
        == LinkKind::IpVlan || links[i].kind == LinkKind::MacVtap ==> {
        &&& links[i].lower_netnsid is None
        &&& links[i].lower matches Some(lower) && exists|j: int|
            0 <= j < links.len() && j != i && (#[trigger] links[j]).index == lower
    }
    &&& links[i].kind == LinkKind::Vxlan && links[i].lower_netnsid is None
        ==> links[i].vxlan_lower != Some(links[i].index)
}

/// Links are accepted exactly if each of them has an index and a name that no other
/// one has, and what each refers to is there.
pub proof fn links_are_accepted_exactly_if_they_are_consistent(links: Seq<ObservedLink>)
    ensures
        refusal(links) is None <==> {
            &&& forall|i: int| 0 <= i < links.len() ==> named_and_numbered(#[trigger] links[i])
            &&& forall|i: int, j: int|
                #![trigger links[i], links[j]]
                0 <= i < j < links.len() ==> links[i].index != links[j].index && links[i].name@
                    != links[j].name@
            &&& forall|i: int| 0 <= i < links.len() ==> #[trigger] refers_well(links, i)
        },
{
    lemma_identity_refusal(links, links.len() as int);
    lemma_stacking_refusal(links, links.len() as int);
    if refusal(links) is None {
        assert forall|i: int| 0 <= i < links.len() implies named_and_numbered(
            #[trigger] links[i],
        ) by {
            assert(identity_fault(links, i) is None);
        }
        assert forall|i: int, j: int|
            #![trigger links[i], links[j]]
            0 <= i < j < links.len() implies links[i].index != links[j].index && links[i].name@
            != links[j].name@ by {
            accepted_links_are_told_apart(links, i, j);
        }
        assert forall|i: int| 0 <= i < links.len() implies #[trigger] refers_well(links, i) by {
            assert(controller_fault(links, i) is None && lower_fault(links, i) is None);
            if let Some(controller) = links[i].controller {
                let j = position(links, controller);
                assert(links[j].index == controller);
            }
            if needs_lower(links[i].kind) {
                let lower = links[i].lower->0;
                let j = position(links, lower);
                assert(links[j].index == lower);
            }
        }
    }
    if (forall|i: int| 0 <= i < links.len() ==> named_and_numbered(#[trigger] links[i])) && (
    forall|i: int, j: int|
        #![trigger links[i], links[j]]
        0 <= i < j < links.len() ==> links[i].index != links[j].index && links[i].name@
            != links[j].name@) && (forall|i: int|
        0 <= i < links.len() ==> #[trigger] refers_well(links, i)) {
        assert forall|i: int| 0 <= i < links.len() implies #[trigger] identity_fault(links, i)
            is None by {
            assert(named_and_numbered(links[i]));
            let earlier = links.take(i);
            if known(earlier, links[i].index) {
                let j = position(earlier, links[i].index);
                assert(links[j].index == links[i].index);
            }
        }
        assert forall|i: int| 0 <= i < links.len() implies #[trigger] controller_fault(links, i)
            is None && lower_fault(links, i) is None by {
            assert(refers_well(links, i));
            if let Some(controller) = links[i].controller {
                let j = choose|j: int|
                    0 <= j < links.len() && (#[trigger] links[j]).index == controller && (j == i
                        ==> links[j].kind != LinkKind::Bond && links[j].kind != LinkKind::Bridge);
                assert(known(links, controller));
                let k = position(links, controller);
                assert(links[k].index == links[j].index);
                assert(k == j);
                if controller == links[i].index {
                    assert(links[i].index == links[j].index);
                }
            }
            if needs_lower(links[i].kind) {
                let lower = links[i].lower->0;
                let j = choose|j: int|
                    0 <= j < links.len() && j != i && (#[trigger] links[j]).index == lower;
                assert(links[i].index != links[j].index);
                assert(known(links, lower));
            }
        }
    }
}

/// Links are refused for the first of them that cannot be told apart from those before
/// it, whatever comes behind.
pub proof fn a_refusal_is_that_of_the_first_fault(links: Seq<ObservedLink>, i: int)
    requires
        0 <= i < links.len(),
        forall|k: int| 0 <= k < i ==> named_and_numbered(#[trigger] links[k]),
        forall|a: int, b: int|
            #![trigger links[a], links[b]]
            0 <= a < b < i ==> links[a].index != links[b].index && links[a].name@ != links[b].name@,
    ensures
        identity_fault(links, i) is Some ==> refusal(links) == identity_fault(links, i),
{
    assert forall|k: int| 0 <= k < i implies #[trigger] identity_fault(links, k) is None by {
        assert(named_and_numbered(links[k]));
        let earlier = links.take(k);
        if known(earlier, links[k].index) {
            let j = position(earlier, links[k].index);
            assert(links[j].index == links[k].index);
        }
    }
    lemma_identity_refusal(links, i);
    if identity_fault(links, i) is Some {
        assert(identity_refusal(links, i + 1) == identity_fault(links, i));
        lemma_identity_refusal_kept(links, i + 1, links.len() as int);
    }
}

/// Links that can be told apart are refused for the first of them that refers to what it
/// must not, for its controller first.
pub proof fn a_refusal_is_that_of_the_first_wrong_reference(links: Seq<ObservedLink>, i: int)
    requires
        0 <= i < links.len(),
        forall|k: int| 0 <= k < links.len() ==> named_and_numbered(#[trigger] links[k]),
        forall|a: int, b: int|
            #![trigger links[a], links[b]]
            0 <= a < b < links.len() ==> links[a].index != links[b].index && links[a].name@
                != links[b].name@,
        forall|k: int| 0 <= k < i ==> #[trigger] refers_well(links, k),
    ensures
        controller_fault(links, i) is Some ==> refusal(links) == controller_fault(links, i),
        controller_fault(links, i) is None && lower_fault(links, i) is Some ==> refusal(links)
            == lower_fault(links, i),
{
    let n = links.len() as int;
    assert forall|k: int| 0 <= k < n implies #[trigger] identity_fault(links, k) is None by {
        assert(named_and_numbered(links[k]));
        let earlier = links.take(k);
        if known(earlier, links[k].index) {
            let j = position(earlier, links[k].index);
            assert(links[j].index == links[k].index);
        }
    }
    lemma_identity_refusal(links, n);
    assert forall|k: int| 0 <= k < i implies #[trigger] controller_fault(links, k) is None
        && lower_fault(links, k) is None by {
        assert(refers_well(links, k));
        if let Some(controller) = links[k].controller {
            let j = choose|j: int|
                0 <= j < links.len() && (#[trigger] links[j]).index == controller && (j == k
                    ==> links[j].kind != LinkKind::Bond && links[j].kind != LinkKind::Bridge);
            assert(known(links, controller));
            let p = position(links, controller);
            assert(links[p].index == links[j].index);
            assert(p == j);
            if controller == links[k].index {
                assert(links[k].index == links[j].index);
            }
        }
        if needs_lower(links[k].kind) {
            let lower = links[k].lower->0;
            let j = choose|j: int|
                0 <= j < links.len() && j != k && (#[trigger] links[j]).index == lower;
            assert(links[k].index != links[j].index);
            assert(known(links, lower));
        }
    }
    lemma_stacking_refusal(links, i);
    if controller_fault(links, i) is Some || lower_fault(links, i) is Some {
        assert(stacking_refusal(links, i + 1) is Some);
        lemma_stacking_refusal_kept(links, i + 1, n);
    }
}

} // verus!

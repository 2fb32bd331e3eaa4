use agentx_ifstack::link::{LinkKind, ObservedLink, Topology};
use agentx_ifstack::mib::{Mib, SearchRange, Value, VarBind, MAX_BULK_BINDINGS, TABLE};
use agentx_ifstack::oid::{is_before, Oid};

fn parsed(text: &str) -> Oid {
    Oid::new(
        text.split('.')
            .map(|component| component.parse().unwrap())
            .collect(),
    )
}

fn oid(suffix: &str) -> Oid {
    parsed(&format!("1.3.6.1.2.1.31.1.2.1.3{suffix}"))
}

fn null() -> Oid {
    Oid::new(vec![])
}

#[test]
fn get_distinguishes_missing_instances_and_objects() {
    let mib = Mib::new(vec![(2, 10)]);
    assert_eq!(mib.get(&oid(".2.10")).data, Value::Integer(1));
    for suffix in ["", ".2", ".2.11", ".2.10.0"] {
        assert_eq!(mib.get(&oid(suffix)).data, Value::NoSuchInstance);
    }
    assert_eq!(
        mib.get(&Oid::new(TABLE.to_vec())).data,
        Value::NoSuchObject
    );
    assert_eq!(
        mib.get(&parsed("1.3.6.1.2.1.31.1.2.1.30")).data,
        Value::NoSuchObject
    );
}

#[test]
fn walk_uses_numeric_components_and_terminates() {
    let mib = Mib::new(vec![(10, 2), (2, 10), (2, 2)]);
    let mut range = SearchRange::new(oid(""), null());
    for suffix in [".2.2", ".2.10", ".10.2"] {
        let next = mib.get_next(&range);
        assert_eq!(next, VarBind::new(oid(suffix), Value::Integer(1)));
        assert!(is_before(&range.start.components, &next.name.components));
        range.start = next.name;
    }
    assert_eq!(
        mib.get_next(&range),
        VarBind::new(oid(".10.2"), Value::EndOfMibView)
    );
}

#[test]
fn next_honors_inclusive_start_and_exclusive_end() {
    let mib = Mib::new(vec![(2, 2), (2, 10)]);
    let mut start = oid(".2.2");
    start.inclusive = 1;
    let next = mib.get_next(&SearchRange::new(start.copy(), oid(".2.10")));
    assert_eq!(next.name, start);
    assert_eq!(next.name.inclusive, 0);
    assert_eq!(next.data, Value::Integer(1));
    for (start, end) in [
        (oid(".2.2"), oid(".2.10")),
        (start.copy(), start),
        (oid(".9"), oid(".1")),
    ] {
        let result = mib.get_next(&SearchRange::new(start.copy(), end));
        assert_eq!(result, VarBind::new(start, Value::EndOfMibView));
    }
    let empty = Mib::new(vec![]);
    assert_eq!(
        empty.get_next(&SearchRange::new(null(), null())).data,
        Value::EndOfMibView
    );
}

#[test]
fn bulk_interleaves_repeaters_and_keeps_exhausted_names() {
    let mib = Mib::new(vec![(2, 2), (2, 10), (10, 2)]);
    let ranges = || {
        let mut inclusive = oid(".2.2");
        inclusive.inclusive = 1;
        vec![
            SearchRange::new(oid(""), null()),
            SearchRange::new(inclusive, oid(".10")),
            SearchRange::new(oid(".2.10"), null()),
        ]
    };
    let result = mib.get_bulk(ranges(), 1, 10);
    assert_eq!(
        result,
        vec![
            VarBind::new(oid(".2.2"), Value::Integer(1)),
            VarBind::new(oid(".2.2"), Value::Integer(1)),
            VarBind::new(oid(".10.2"), Value::Integer(1)),
            VarBind::new(oid(".2.10"), Value::Integer(1)),
            VarBind::new(oid(".10.2"), Value::EndOfMibView),
            VarBind::new(oid(".2.10"), Value::EndOfMibView),
            VarBind::new(oid(".10.2"), Value::EndOfMibView),
        ]
    );
    assert_eq!(mib.get_bulk(ranges(), 1, 0).len(), 1);
    assert_eq!(mib.get_bulk(ranges(), 20, 20).len(), 3);
    assert!(mib.get_bulk(vec![], 0, 20).is_empty());
}

#[test]
fn bulk_bounds_response_growth() {
    let mib = Mib::new((1..10000).map(|i| (i, 0)).collect());
    assert_eq!(
        mib.get_bulk(vec![SearchRange::new(null(), null())], 0, u16::MAX)
            .len(),
        MAX_BULK_BINDINGS
    );
    assert_eq!(MAX_BULK_BINDINGS, 4096);
}

#[test]
fn bulk_bounds_the_ranges_that_are_searched_once() {
    let mib = Mib::new(vec![(1, 0)]);
    let ranges = (0..5000).map(|_| SearchRange::new(oid(""), null())).collect();
    assert_eq!(mib.get_bulk(ranges, 5000, 3).len(), 4096);
}

#[test]
fn the_rows_of_a_topology_are_its_relationships_and_its_boundaries() {
    let topology = Topology::from_observed(vec![
        ObservedLink::plain(2, "low").with_controller(9),
        ObservedLink::of_kind(9, "bond", LinkKind::Bond),
        ObservedLink::of_kind(12, "vlan", LinkKind::Vlan).with_lower(9),
        ObservedLink::plain(20, "alone"),
    ])
    .unwrap();
    let mib = Mib::from_topology(&topology);
    let mut range = SearchRange::new(oid(""), null());
    for suffix in [
        ".0.12", ".0.20", ".2.0", ".9.2", ".12.9", ".20.0",
    ] {
        let next = mib.get_next(&range);
        assert_eq!(next, VarBind::new(oid(suffix), Value::Integer(1)));
        assert_eq!(mib.get(&oid(suffix)).data, Value::Integer(1));
        range.start = next.name;
    }
    assert_eq!(mib.get_next(&range).data, Value::EndOfMibView);
    for suffix in [".12.2", ".0.2", ".0.9", ".9.0", ".12.0", ".0.0"] {
        assert_eq!(mib.get(&oid(suffix)).data, Value::NoSuchInstance);
    }
}

#[test]
fn a_row_given_twice_counts_once() {
    let mib = Mib::new(vec![(3, 1), (3, 1)]);
    let found = mib.get_bulk(vec![SearchRange::new(oid(""), null())], 0, 5);
    assert_eq!(
        found,
        vec![
            VarBind::new(oid(".3.1"), Value::Integer(1)),
            VarBind::new(oid(".3.1"), Value::EndOfMibView),
        ]
    );
}

#[test]
fn identifiers_are_ordered_by_their_first_difference() {
    assert!(is_before(&vec![1, 2], &vec![1, 2, 0]));
    assert!(is_before(&vec![1, 2, 9], &vec![1, 10]));
    assert!(!is_before(&vec![1, 2], &vec![1, 2]));
    assert!(is_before(&vec![], &vec![0]));
    let mut start = oid("");
    start.inclusive = 1;
    assert_eq!(start, oid(""));
    assert!(!start.is_null());
    assert!(null().is_null());
}

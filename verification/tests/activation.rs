use unitd::activate_unit::{activate_unit, activate_units, root_units, Activator, StartResult};
use unitd::units::{Install, Unit, UnitSpecialized, UnitTable};

fn unit(id: u64, name: &[u8], after: Vec<u64>, before: Vec<u64>) -> Unit {
    Unit {
        id,
        name: name.to_vec(),
        install: Install {
            after,
            before,
            required_by: vec![],
            needed_for_activation: vec![],
        },
        specialized: UnitSpecialized::Target,
    }
}

#[test]
fn after_ordering_chain() {
    // X, Y, Z with Y.after={X}, Z.after={Y}: the start order satisfies
    // X before Y before Z.
    let table = UnitTable {
        units: vec![
            unit(3, b"Z", vec![2], vec![]),
            unit(1, b"X", vec![], vec![2]),
            unit(2, b"Y", vec![1], vec![3]),
        ],
    };
    let act = activate_units(&table);
    let x = act.started_ids.iter().position(|&i| i == 1).unwrap();
    let y = act.started_ids.iter().position(|&i| i == 2).unwrap();
    let z = act.started_ids.iter().position(|&i| i == 3).unwrap();
    assert!(x < y && y < z);
    assert_eq!(act.started_ids.len(), 3);
    assert!(act.queue.is_empty());
}

#[test]
fn dependency_cycle_stalls_without_deadlock() {
    // A and B wait on each other; C is a root. The activator starts C,
    // never progresses into the cycle, and its worklist still runs dry.
    let table = UnitTable {
        units: vec![
            unit(1, b"A", vec![2], vec![2]),
            unit(2, b"B", vec![1], vec![1]),
            unit(3, b"C", vec![], vec![]),
        ],
    };
    let act = activate_units(&table);
    assert_eq!(act.started_ids, vec![3]);
    assert!(act.queue.is_empty());
}

#[test]
fn roots_are_the_units_without_predecessors() {
    let table = UnitTable {
        units: vec![
            unit(1, b"a", vec![], vec![]),
            unit(2, b"b", vec![1], vec![]),
            unit(3, b"c", vec![], vec![]),
        ],
    };
    assert_eq!(root_units(&table), vec![1, 3]);
}

#[test]
fn activation_is_deferred_until_predecessors_started() {
    let table = UnitTable {
        units: vec![
            unit(1, b"a", vec![], vec![2]),
            unit(2, b"b", vec![1], vec![]),
        ],
    };
    // b's predecessor has not started: the attempt is ignored
    let started: Vec<u64> = vec![];
    assert!(matches!(
        activate_unit(&table, &started, 2),
        StartResult::Ignored
    ));
    // a is free: started, successors are b
    match activate_unit(&table, &started, 1) {
        StartResult::Started(next) => assert_eq!(next, vec![2]),
        StartResult::Ignored => panic!("root must start"),
    }
    // with a started, b goes through
    let started: Vec<u64> = vec![1];
    assert!(matches!(
        activate_unit(&table, &started, 2),
        StartResult::Started(_)
    ));
    // an id the registry does not know is ignored
    assert!(matches!(
        activate_unit(&table, &started, 99),
        StartResult::Ignored
    ));
}

#[test]
fn redundant_enqueues_are_cheap() {
    // a unit enqueued twice starts once; the second attempt changes nothing
    let table = UnitTable {
        units: vec![unit(1, b"a", vec![], vec![])],
    };
    let mut act = Activator::new(vec![]);
    assert!(act.mark_started(&table, 1));
    let started_before = act.started_ids.clone();
    assert!(!act.mark_started(&table, 1));
    assert_eq!(act.started_ids, started_before);
    // and an already started unit is ignored by the decision too
    assert!(matches!(
        activate_unit(&table, &act.started_ids, 1),
        StartResult::Ignored
    ));
}

#[test]
fn diamond_starts_every_unit_once() {
    // a -> {b, c} -> d: all four start, each exactly once
    let table = UnitTable {
        units: vec![
            unit(1, b"a", vec![], vec![2, 3]),
            unit(2, b"b", vec![1], vec![4]),
            unit(3, b"c", vec![1], vec![4]),
            unit(4, b"d", vec![2, 3], vec![]),
        ],
    };
    let act = activate_units(&table);
    assert_eq!(act.started_ids.len(), 4);
    let a = act.started_ids.iter().position(|&i| i == 1).unwrap();
    let b = act.started_ids.iter().position(|&i| i == 2).unwrap();
    let c = act.started_ids.iter().position(|&i| i == 3).unwrap();
    let d = act.started_ids.iter().position(|&i| i == 4).unwrap();
    assert!(a < b && a < c && b < d && c < d);
}

use unitd::units::{Install, Unit, UnitSpecialized, UnitTable};

fn target(id: u64, name: &[u8]) -> Unit {
    Unit {
        id,
        name: name.to_vec(),
        install: Install {
            after: vec![],
            before: vec![],
            required_by: vec![],
            needed_for_activation: vec![],
        },
        specialized: UnitSpecialized::Target,
    }
}

#[test]
fn registry_refuses_duplicate_ids() {
    let mut table = UnitTable::new();
    assert!(table.insert_unit(target(1, b"a")));
    assert!(table.insert_unit(target(2, b"b")));
    assert!(!table.insert_unit(target(1, b"a2")));
    assert_eq!(table.units.len(), 2);
    assert_eq!(table.find_index(2), Some(1));
    assert_eq!(table.find_index(7), None);
}

use nt::{EntryStore, EntryType, EntryValue, RPCDefinitionData, StoreError};

fn double(x: f64) -> EntryValue {
    EntryValue::Double(x.to_bits())
}

fn as_double(v: Option<EntryValue>) -> f64 {
    match v {
        Some(EntryValue::Double(bits)) => f64::from_bits(bits),
        other => panic!("not a double: {:?}", other),
    }
}

#[test]
fn create_get_set_and_mismatch() {
    let mut store = EntryStore::new();
    let id = store.create_entry("x".to_string(), EntryType::Double, double(1.0)).unwrap();
    assert_eq!(as_double(store.value(id)), 1.0);
    assert_eq!(store.set_value(id, double(2.0)), Ok(()));
    assert_eq!(as_double(store.value(id)), 2.0);
    assert_eq!(store.set_value(id, EntryValue::String("y".to_string())), Err(StoreError::TypeMismatch));
    assert_eq!(as_double(store.value(id)), 2.0);
}

#[test]
fn identifiers_are_fresh_and_not_reused() {
    let mut store = EntryStore::new();
    let a = store.create_entry("a".to_string(), EntryType::Boolean, EntryValue::Boolean(true)).unwrap();
    let b = store.create_entry("b".to_string(), EntryType::Boolean, EntryValue::Boolean(false)).unwrap();
    assert_eq!((a, b), (0, 1));
    assert!(store.delete_entry(a));
    assert!(!store.delete_entry(a));
    assert!(store.value(a).is_none());
    assert_eq!(store.set_value(a, EntryValue::Boolean(true)), Err(StoreError::NotFound));
    let c = store.create_entry("c".to_string(), EntryType::Boolean, EntryValue::Boolean(true)).unwrap();
    assert_eq!(c, 2);
    assert_eq!(store.name(b), Some("b".to_string()));
    assert_eq!(store.entry_type(c), Some(EntryType::Boolean));
}

#[test]
fn create_with_wrong_kind_is_refused() {
    let mut store = EntryStore::new();
    assert_eq!(
        store.create_entry("x".to_string(), EntryType::String, double(1.0)),
        Err(StoreError::TypeMismatch)
    );
    assert!(!store.contains(0));
}

#[test]
fn inbound_updates_overwrite_only_live_matching_entries() {
    let mut store = EntryStore::new();
    let id = store.create_entry("x".to_string(), EntryType::Double, double(1.0)).unwrap();
    assert!(store.apply_inbound_update(id, double(5.0)));
    assert_eq!(as_double(store.value(id)), 5.0);
    assert!(!store.apply_inbound_update(id, EntryValue::Boolean(true)));
    assert!(!store.apply_inbound_update(id + 1, double(7.0)));
    assert_eq!(as_double(store.value(id)), 5.0);
}

#[test]
fn interleaved_writes_leave_other_entries_alone() {
    let mut store = EntryStore::new();
    let mut ids = Vec::new();
    for i in 0..8 {
        ids.push(store.create_entry(format!("e{}", i), EntryType::Double, double(i as f64)).unwrap());
    }
    let mut written: Vec<Vec<f64>> = (0..8).map(|i| vec![i as f64]).collect();
    for round in 0..50u32 {
        let k = (round as usize * 5 + 3) % 8;
        let x = round as f64 * 0.5;
        if round % 2 == 0 {
            store.set_value(ids[k], double(x)).unwrap();
        } else {
            assert!(store.apply_inbound_update(ids[k], double(x)));
        }
        written[k].push(x);
        for j in 0..8 {
            let now = as_double(store.value(ids[j]));
            assert!(written[j].contains(&now));
            assert_eq!(now, *written[j].last().unwrap());
        }
    }
}

#[test]
fn definitions_are_registered_and_looked_up() {
    let mut store = EntryStore::new();
    let id = store
        .create_entry("proc".to_string(), EntryType::RPCDefinition, EntryValue::RPCDefinition(RPCDefinitionData::empty()))
        .unwrap();
    let plain = store.create_entry("n".to_string(), EntryType::Double, double(0.0)).unwrap();
    let d = RPCDefinitionData::new("f".to_string(), vec![], vec![]);
    assert!(store.register_definition(id, d));
    let got = store.lookup_definition(id).unwrap();
    assert_eq!(got.version, 1);
    assert_eq!(got.procedure_name, "f");
    assert!(!store.register_definition(plain, RPCDefinitionData::empty()));
    assert!(store.lookup_definition(plain).is_none());
}

//! Behaviour of the instance store through its public interface: handle
//! identity, round trips, staleness, packing and capacity growth.

use instance_store::InstanceManager;

/// A fixed-layout instance record of the shape a renderer feeds the store:
/// a rectangle plus a power flag.
#[derive(Clone, Copy, Debug, PartialEq)]
struct Rect {
    position: [f32; 2],
    size: [f32; 2],
    is_powered: u32,
}

fn rect(tag: u32) -> Rect {
    Rect {
        position: [tag as f32, 0.5],
        size: [1.0, 2.0],
        is_powered: tag % 2,
    }
}

/// The packed contents of the store's buffer, copied out.
fn contents(store: &mut InstanceManager<Rect>) -> Vec<Rect> {
    match store.buffer() {
        Some(buf) => buf.clone(),
        None => Vec::new(),
    }
}

/// Order-insensitive comparison of record collections.
fn same_records(mut a: Vec<Rect>, mut b: Vec<Rect>) -> bool {
    let key = |r: &Rect| (r.position[0] * 1000.0) as i64;
    a.sort_by_key(key);
    b.sort_by_key(key);
    a == b
}

#[test]
fn handles_are_unique_across_inserts_and_removes() {
    let mut store = InstanceManager::new();
    let mut live = Vec::new();
    for tag in 0..20u32 {
        live.push(store.insert(rect(tag)));
    }
    // Recycle a few slots so fresh handles reuse indices under new
    // generations.
    for handle in live.drain(5..10).collect::<Vec<_>>() {
        assert!(store.remove(&handle));
    }
    for tag in 20..30u32 {
        live.push(store.insert(rect(tag)));
    }
    for i in 0..live.len() {
        for j in 0..live.len() {
            if i != j {
                assert_ne!(live[i], live[j]);
            }
        }
    }
}

#[test]
fn update_round_trip_reads_back_exactly() {
    let mut store = InstanceManager::new();
    let a = store.insert(rect(1));
    let b = store.insert(rect(2));
    let replacement = rect(7);
    store.update(&a, replacement);
    assert_eq!(store.get(&a), Some(&replacement));
    let position = store.resolve(&a).unwrap();
    assert_eq!(contents(&mut store)[position], replacement);
    assert_eq!(store.get(&b), Some(&rect(2)));
}

#[test]
fn removed_handle_is_stale_everywhere() {
    let mut store = InstanceManager::new();
    let a = store.insert(rect(1));
    let b = store.insert(rect(2));
    assert!(store.remove(&a));
    assert!(!store.remove(&a));
    assert_eq!(store.resolve(&a), None);
    assert_eq!(store.get(&a), None);
    store.update(&a, rect(9));
    assert_eq!(store.len(), 1);
    assert!(same_records(contents(&mut store), vec![rect(2)]));
    assert_eq!(store.get(&b), Some(&rect(2)));
}

#[test]
fn double_remove_reports_success_once() {
    let mut store = InstanceManager::new();
    let a = store.insert(rect(1));
    let mut successes = 0;
    for _ in 0..5 {
        if store.remove(&a) {
            successes += 1;
        }
    }
    assert_eq!(successes, 1);
    assert_eq!(store.len(), 0);
}

#[test]
fn buffer_matches_live_payloads_after_mixed_operations() {
    let mut store = InstanceManager::new();
    let mut live = Vec::new();
    for tag in 0..12u32 {
        live.push((tag, store.insert(rect(tag))));
    }
    for victim in [1usize, 3, 5, 7] {
        let (_, handle) = live.remove(victim);
        assert!(store.remove(&handle));
    }
    for tag in 100..104u32 {
        live.push((tag, store.insert(rect(tag))));
    }
    store.update(&live[0].1, rect(200));
    live[0].0 = 200;

    assert_eq!(store.len(), live.len());
    let expected: Vec<Rect> = live.iter().map(|&(tag, _)| rect(tag)).collect();
    assert!(same_records(contents(&mut store), expected));
    for &(tag, ref handle) in &live {
        assert_eq!(store.get(handle), Some(&rect(tag)));
    }
}

#[test]
fn growth_beyond_initial_capacity_keeps_all_records() {
    let mut store = InstanceManager::new();
    let n = 1000u32;
    let handles: Vec<_> = (0..n).map(|tag| store.insert(rect(tag))).collect();
    assert_eq!(store.len(), n as usize);
    let packed = contents(&mut store);
    assert_eq!(packed.len(), n as usize);
    for (tag, handle) in handles.iter().enumerate() {
        let via_get = *store.get(handle).unwrap();
        let via_position = packed[store.resolve(handle).unwrap()];
        assert_eq!(via_get, rect(tag as u32));
        assert_eq!(via_position, rect(tag as u32));
    }
}

#[test]
fn empty_store_has_no_buffer() {
    let mut store: InstanceManager<Rect> = InstanceManager::new();
    assert_eq!(store.len(), 0);
    assert!(store.buffer().is_none());
    let a = store.insert(rect(1));
    assert!(store.buffer().is_some());
    store.remove(&a);
    assert!(store.buffer().is_none());
}

#[test]
fn buffer_is_stable_between_mutations() {
    let mut store = InstanceManager::new();
    for tag in 0..6u32 {
        store.insert(rect(tag));
    }
    let first = contents(&mut store);
    let second = contents(&mut store);
    assert_eq!(first, second);
}

#[test]
fn three_records_swap_remove_scenario() {
    let mut store = InstanceManager::new();
    let record_a = rect(10);
    let record_b = rect(20);
    let record_c = rect(30);
    let ha = store.insert(record_a);
    let hb = store.insert(record_b);
    let hc = store.insert(record_c);
    assert_eq!(store.len(), 3);
    let b_position = store.resolve(&hb).unwrap();

    assert!(store.remove(&hb));
    assert_eq!(store.len(), 2);
    // Swap-removal moved C into B's former position.
    assert_eq!(store.resolve(&hc), Some(b_position));
    let after = contents(&mut store);
    assert_eq!(after.len(), 2);
    assert!(same_records(after.clone(), vec![record_a, record_c]));

    assert!(!store.remove(&hb));
    assert_eq!(store.len(), 2);
    assert!(same_records(contents(&mut store), vec![record_a, record_c]));
    assert_eq!(store.get(&ha), Some(&record_a));
    assert_eq!(store.get(&hc), Some(&record_c));
}

#[test]
fn recycled_slot_does_not_revive_the_old_handle() {
    let mut store = InstanceManager::new();
    let old_handle = store.insert(rect(1));
    assert!(store.remove(&old_handle));
    // The next insert recycles the freed slot under a new generation.
    let new_handle = store.insert(rect(2));
    assert_ne!(old_handle, new_handle);
    assert_eq!(store.get(&old_handle), None);
    assert!(!store.remove(&old_handle));
    store.update(&old_handle, rect(3));
    assert_eq!(store.get(&new_handle), Some(&rect(2)));
    assert_eq!(store.len(), 1);
}

#[test]
fn update_after_remove_is_a_no_op() {
    let mut store = InstanceManager::new();
    let record_a = rect(10);
    let record_b = rect(20);
    let ha = store.insert(record_a);
    let _hb = store.insert(record_b);
    assert!(store.remove(&ha));
    let before = contents(&mut store);
    store.update(&ha, rect(99));
    assert_eq!(store.len(), 1);
    assert_eq!(contents(&mut store), before);
}

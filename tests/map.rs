use micromap::{DecodeError, MicroMap};

#[test]
fn capacity_scenario_with_two_slots() {
    let mut m: MicroMap<u64, &str, 2> = MicroMap::new();
    assert_eq!(None, m.insert(1, "a"));
    assert_eq!(1, m.len());
    assert_eq!(None, m.insert(2, "b"));
    assert_eq!(2, m.len());
    // full: a third key has no slot
    assert_eq!(m.capacity(), m.len());
    assert!(!m.contains_key(&3));
    assert_eq!(Some("a"), m.insert(1, "z"));
    assert_eq!(2, m.len());
    assert_eq!(Some("b"), m.remove(&2));
    assert_eq!(1, m.len());
    assert_eq!(None, m.insert(3, "c"));
    assert_eq!(2, m.len());
    assert_eq!(Some(&"z"), m.get(&1));
    assert_eq!(Some(&"c"), m.get(&3));
}

#[test]
fn len_counts_distinct_keys() {
    let mut m: MicroMap<u64, u64, 5> = MicroMap::new();
    for k in 0..5u64 {
        assert_eq!(None, m.insert(k, k * 10));
        assert_eq!((k + 1) as usize, m.len());
    }
    assert_eq!(m.capacity(), m.len());
}

#[test]
fn reinsert_keeps_len_and_returns_previous() {
    let mut m: MicroMap<u64, u64, 3> = MicroMap::new();
    assert_eq!(None, m.insert(5, 1));
    assert_eq!(Some(1), m.insert(5, 2));
    assert_eq!(Some(2), m.insert(5, 3));
    assert_eq!(1, m.len());
    assert_eq!(Some(&3), m.get(&5));
}

#[test]
fn remove_takes_key_out() {
    let mut m: MicroMap<u64, u64, 3> = MicroMap::new();
    m.insert(1, 10);
    m.insert(2, 20);
    m.insert(3, 30);
    assert_eq!(Some(20), m.remove(&2));
    assert_eq!(None, m.get(&2));
    assert_eq!(2, m.len());
    assert_eq!(None, m.remove(&2));
    assert_eq!(2, m.len());
    let keys: Vec<u64> = {
        let mut it = m.iter();
        let mut ks = Vec::new();
        while let Some((k, _)) = it.next() {
            ks.push(*k);
        }
        ks
    };
    assert_eq!(vec![1, 3], keys);
}

#[test]
fn empty_map_finds_nothing() {
    let mut m: MicroMap<u64, u64, 4> = MicroMap::new();
    assert!(m.is_empty());
    assert_eq!(0, m.len());
    assert_eq!(4, m.capacity());
    assert_eq!(None, m.get(&1));
    assert_eq!(None, m.remove(&1));
    assert!(!m.contains_key(&1));
    assert!(m.get_mut(&1).is_none());
}

#[test]
fn zero_capacity_map_is_empty() {
    let m: MicroMap<u64, u64, 0> = MicroMap::new();
    assert!(m.is_empty());
    assert_eq!(0, m.capacity());
    assert!(m.iter().next().is_none());
}

#[test]
fn iter_yields_insertion_order() {
    let mut m: MicroMap<u64, &str, 8> = MicroMap::new();
    for k in [7u64, 3, 9, 1] {
        m.insert(k, "v");
    }
    m.insert(3, "w");
    let mut it = m.iter();
    let mut seen = Vec::new();
    while let Some((k, v)) = it.next() {
        seen.push((*k, *v));
    }
    assert_eq!(vec![(7, "v"), (3, "w"), (9, "v"), (1, "v")], seen);
    assert!(it.next().is_none());
    // each walk starts afresh
    assert_eq!(Some((&7, &"v")), m.iter().next());
}

#[test]
fn into_iter_yields_owned_pairs() {
    let mut m: MicroMap<u64, String, 4> = MicroMap::new();
    m.insert(2, "two".to_string());
    m.insert(4, "four".to_string());
    let mut it = m.into_iter();
    assert_eq!(Some((2, "two".to_string())), it.next());
    assert_eq!(Some((4, "four".to_string())), it.next());
    assert_eq!(None, it.next());
}

#[test]
fn get_mut_changes_value() {
    let mut m: MicroMap<u64, u64, 2> = MicroMap::new();
    m.insert(1, 10);
    if let Some(v) = m.get_mut(&1) {
        *v += 5;
    }
    assert_eq!(Some(&15), m.get(&1));
    assert_eq!(1, m.len());
}

#[test]
fn clear_empties_every_slot() {
    let mut m: MicroMap<u64, u64, 3> = MicroMap::new();
    m.insert(1, 1);
    m.insert(2, 2);
    m.clear();
    assert!(m.is_empty());
    assert_eq!(None, m.get(&1));
    assert_eq!(None, m.insert(3, 3));
    assert_eq!(1, m.len());
}

#[test]
fn clone_is_independent() {
    let mut m: MicroMap<u64, String, 3> = MicroMap::new();
    m.insert(1, "one".to_string());
    let c = m.clone();
    m.insert(1, "uno".to_string());
    assert_eq!(Some(&"one".to_string()), c.get(&1));
    assert_eq!(Some(&"uno".to_string()), m.get(&1));
}

#[test]
fn encode_emits_entries_in_order() {
    let mut m: MicroMap<u64, &str, 4> = MicroMap::new();
    m.insert(10, "a");
    m.insert(20, "b");
    m.insert(30, "c");
    m.remove(&10);
    assert_eq!(vec![(20, "b"), (30, "c")], m.encode());
}

#[test]
fn decode_of_encode_round_trips() {
    let mut m: MicroMap<u64, String, 3> = MicroMap::new();
    m.insert(1, "x".to_string());
    m.insert(2, "y".to_string());
    m.insert(3, "z".to_string());
    let d = MicroMap::<u64, String, 3>::decode(m.encode()).unwrap();
    assert_eq!(m.len(), d.len());
    assert_eq!(m.encode(), d.encode());
    assert_eq!(Some(&"y".to_string()), d.get(&2));
}

#[test]
fn decode_applies_inserts_in_order() {
    let d = MicroMap::<u64, u64, 2>::decode(vec![(1, 1), (2, 2), (1, 3)]);
    assert!(matches!(d, Err(DecodeError::MalformedInput)));
    let d = MicroMap::<u64, u64, 3>::decode(vec![(1, 1), (2, 2), (1, 3)]).unwrap();
    assert_eq!(vec![(1, 3), (2, 2)], d.encode());
}

#[test]
fn decode_refuses_too_many_pairs() {
    let d = MicroMap::<u64, u64, 1>::decode(vec![(1, 1), (2, 2)]);
    assert!(matches!(d, Err(DecodeError::MalformedInput)));
    let d = MicroMap::<u64, u64, 1>::decode(Vec::new()).unwrap();
    assert!(d.is_empty());
}

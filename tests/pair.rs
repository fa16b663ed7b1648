use anyhow::Result;
use micromap::Pair;

#[test]
fn boom() -> Result<()> {
    Ok(())
}

#[test]
fn default_slot_is_empty() {
    let p: Pair<u64, u64> = Pair::default();
    assert!(!p.is_some());
}

#[test]
fn present_slot_unwraps_to_its_pair() {
    let p: Pair<u64, &str> = Pair::Present((7, "seven"));
    assert!(p.is_some());
    assert_eq!((7, "seven"), p.unwrap());
}

#[test]
fn as_mut_changes_the_pair_in_place() {
    let mut p: Pair<u64, u64> = Pair::Present((1, 10));
    if let Some(kv) = p.as_mut() {
        kv.1 = 11;
    }
    assert_eq!((1, 11), p.unwrap());
    let mut q: Pair<u64, u64> = Pair::Absent;
    assert!(q.as_mut().is_none());
}

#[test]
fn cloned_slot_keeps_key_and_value() {
    let p: Pair<u64, String> = Pair::Present((3, "x".to_string()));
    let q = p.clone();
    assert_eq!((3, "x".to_string()), q.unwrap());
}

use ytdl_core::assets::{materialize_step, Asset};

#[test]
fn asset_lookup_by_name() {
    let mut store = Asset::new();
    assert!(store.insert("tool".to_string(), vec![1, 2, 3]));
    assert!(store.insert("tool.exe".to_string(), vec![4, 5]));
    assert_eq!(store.get("tool"), Some(&vec![1, 2, 3]));
    assert_eq!(store.get("tool.exe"), Some(&vec![4, 5]));
    assert_eq!(store.get("missing"), None);
}

#[test]
fn asset_duplicate_name_refused() {
    let mut store = Asset::new();
    assert!(store.insert("tool".to_string(), vec![1]));
    assert!(!store.insert("tool".to_string(), vec![9]));
    assert_eq!(store.get("tool"), Some(&vec![1]));
}

#[test]
fn materialize_twice_writes_once() {
    // The second "ensure present" step sees the file and performs no
    // redundant write; exactly the payload is in place at the end.
    let payload = vec![7u8, 8, 9];
    let (state1, wrote1) = materialize_step(None, payload.clone());
    assert!(wrote1);
    assert_eq!(state1, Some(payload.clone()));
    let (state2, wrote2) = materialize_step(state1, payload.clone());
    assert!(!wrote2);
    assert_eq!(state2, Some(payload));
}

#[test]
fn materialize_never_overwrites() {
    // An existing file is kept as it is, even when it differs from the
    // payload: the file is effectively immutable after first creation.
    let existing = vec![1u8, 1, 1];
    let (state, wrote) = materialize_step(Some(existing.clone()), vec![2u8, 2]);
    assert!(!wrote);
    assert_eq!(state, Some(existing));
}

use ollama_shepherd::ollama::KeyEntry;
use ollama_shepherd::store::{store_path, KeyStore};

#[test]
fn stored_keys_or_none() {
    let key = KeyEntry { label: "l".to_string(), key: "k".to_string() };
    let found = KeyStore { keys: vec![key.clone()] };
    let r = KeyStore::load(Some(found));
    assert_eq!(r.keys.len(), 1);
    assert_eq!((r.keys[0].label.as_str(), r.keys[0].key.as_str()), ("l", "k"));
    assert!(KeyStore::load(None).keys.is_empty());
    assert!(KeyStore::default().keys.is_empty());
}

#[test]
fn place_of_the_store() {
    let tail = (".ollama-shepherd", "keys.json");
    assert_eq!(store_path(Some("p"), Some("h")), Some(("p", tail.0, tail.1)));
    assert_eq!(store_path(None, Some("h")), Some(("h", tail.0, tail.1)));
    assert_eq!(store_path(Some("p"), None), Some(("p", tail.0, tail.1)));
    assert_eq!(store_path::<&str>(None, None), None);
}

use enchant_scan::cache::load_hash_dict;
use enchant_scan::cache::load_or_empty;
use enchant_scan::cache::memo_of_entries;
use enchant_scan::cache::save_hash_dict;
use enchant_scan::cache::CacheError;
use enchant_scan::cache::MemoCache;
use enchant_scan::cache::MemoEntry;

#[test]
fn new_memo_is_empty() {
    let cache = MemoCache::new();
    assert_eq!(cache.len(), 0);
    assert_eq!(cache.lookup("aa"), None);
    assert_eq!(cache.lookup(""), None);
}

#[test]
fn insert_then_lookup() {
    let mut cache = MemoCache::new();
    cache.insert("aa".to_string(), true);
    cache.insert("bb".to_string(), false);
    assert_eq!(cache.len(), 2);
    assert_eq!(cache.lookup("aa"), Some(true));
    assert_eq!(cache.lookup("bb"), Some(false));
    assert_eq!(cache.lookup("cc"), None);
    assert_eq!(cache.lookup("a"), None);
}

#[test]
fn insert_twice_is_insert_once() {
    let mut cache = MemoCache::new();
    cache.insert("aa".to_string(), true);
    cache.insert("aa".to_string(), true);
    assert_eq!(cache.len(), 1);
    assert_eq!(cache.lookup("aa"), Some(true));
}

#[test]
fn last_insert_wins() {
    let mut cache = MemoCache::new();
    cache.insert("aa".to_string(), true);
    cache.insert("bb".to_string(), true);
    cache.insert("aa".to_string(), false);
    assert_eq!(cache.len(), 2);
    assert_eq!(cache.lookup("aa"), Some(false));
    assert_eq!(cache.lookup("bb"), Some(true));
}

#[test]
fn memo_is_read_from_text() {
    let cache = load_hash_dict("{\"bb\": false, \"aa\": true}").unwrap();
    assert_eq!(cache.len(), 2);
    assert_eq!(cache.lookup("aa"), Some(true));
    assert_eq!(cache.lookup("bb"), Some(false));
    assert_eq!(load_hash_dict("{}").unwrap().len(), 0);
    assert_eq!(load_hash_dict("  { }\n").unwrap().len(), 0);
}

#[test]
fn repeated_key_in_text_is_held_once() {
    let cache = load_hash_dict("{\"aa\": true, \"aa\": false}").unwrap();
    assert_eq!(cache.len(), 1);
    assert_eq!(cache.lookup("aa"), Some(false));
}

#[test]
fn malformed_text_is_refused() {
    for text in ["", "[]", "{", "{\"aa\": 1}", "{\"aa\": \"true\"}", "{\"aa\": true} x", "null", "true"] {
        assert_eq!(load_hash_dict(text).err(), Some(CacheError::Malformed));
    }
}

#[test]
fn missing_or_malformed_text_starts_an_empty_memo() {
    assert_eq!(load_or_empty(None).len(), 0);
    assert_eq!(load_or_empty(Some("not json")).len(), 0);
    assert_eq!(load_or_empty(Some("{\"aa\": 3}")).len(), 0);
    let cache = load_or_empty(Some("{\"aa\": true}"));
    assert_eq!(cache.len(), 1);
    assert_eq!(cache.lookup("aa"), Some(true));
}

#[test]
fn memo_is_written_as_text() {
    let mut cache = MemoCache::new();
    assert_eq!(save_hash_dict(&cache), Ok("{}".to_string()));
    cache.insert("bb".to_string(), false);
    cache.insert("aa".to_string(), true);
    assert_eq!(save_hash_dict(&cache), Ok("{\"aa\":true,\"bb\":false}".to_string()));
    cache.insert("bb".to_string(), true);
    assert_eq!(save_hash_dict(&cache), Ok("{\"aa\":true,\"bb\":true}".to_string()));
}

#[test]
fn text_does_not_depend_on_the_order_of_inserts() {
    let mut one = MemoCache::new();
    one.insert("aa".to_string(), true);
    one.insert("bb".to_string(), false);
    one.insert("cc".to_string(), true);
    let mut other = MemoCache::new();
    other.insert("cc".to_string(), false);
    other.insert("bb".to_string(), false);
    other.insert("aa".to_string(), true);
    other.insert("cc".to_string(), true);
    assert_eq!(save_hash_dict(&one), save_hash_dict(&other));
}

#[test]
fn memo_survives_a_round_trip() {
    let mut cache = MemoCache::new();
    cache.insert("e3b0c44298fc1c149afbf4c8996fb92427ae41e4649b934ca495991b7852b855".to_string(), true);
    cache.insert("ba7816bf8f01cfea414140de5dae2223b00361a396177a9cb410ff61f20015ad".to_string(), false);
    cache.insert("with \"quotes\" and \\ and \n and \u{e9}".to_string(), true);
    cache.insert(String::new(), false);
    let text = save_hash_dict(&cache).unwrap();
    let back = load_hash_dict(&text).unwrap();
    assert_eq!(back.len(), 4);
    assert_eq!(
        back.lookup("e3b0c44298fc1c149afbf4c8996fb92427ae41e4649b934ca495991b7852b855"),
        Some(true)
    );
    assert_eq!(
        back.lookup("ba7816bf8f01cfea414140de5dae2223b00361a396177a9cb410ff61f20015ad"),
        Some(false)
    );
    assert_eq!(back.lookup("with \"quotes\" and \\ and \n and \u{e9}"), Some(true));
    assert_eq!(back.lookup(""), Some(false));
    assert_eq!(save_hash_dict(&back).unwrap(), text);
}

#[test]
fn empty_memo_survives_a_round_trip() {
    let text = save_hash_dict(&MemoCache::new()).unwrap();
    let back = load_hash_dict(&text).unwrap();
    assert_eq!(back.len(), 0);
    assert_eq!(save_hash_dict(&back).unwrap(), text);
}

fn entry(fingerprint: &str, found: bool) -> MemoEntry {
    MemoEntry { fingerprint: fingerprint.to_string(), found }
}

#[test]
fn memo_is_built_from_entries() {
    let cache = memo_of_entries(&vec![entry("bb", false), entry("aa", true), entry("cc", true)]);
    assert_eq!(cache.len(), 3);
    assert_eq!(cache.lookup("aa"), Some(true));
    assert_eq!(cache.lookup("bb"), Some(false));
    assert_eq!(cache.lookup("cc"), Some(true));
    assert_eq!(cache.lookup("dd"), None);
    assert_eq!(memo_of_entries(&vec![]).len(), 0);
}

#[test]
fn later_entry_overwrites_earlier() {
    let cache = memo_of_entries(&vec![
        entry("aa", true),
        entry("bb", true),
        entry("aa", false),
        entry("aa", true),
        entry("bb", false),
    ]);
    assert_eq!(cache.len(), 2);
    assert_eq!(cache.lookup("aa"), Some(true));
    assert_eq!(cache.lookup("bb"), Some(false));
}

#[test]
fn saving_always_gives_a_text() {
    let mut cache = MemoCache::new();
    assert!(save_hash_dict(&cache).is_ok());
    for n in 0..50u32 {
        cache.insert(format!("key \"{}\" \\ \u{1} \u{7f} \u{2028} \u{1f600}", n), n % 2 == 0);
        let text = save_hash_dict(&cache).unwrap();
        let back = load_hash_dict(&text).unwrap();
        assert_eq!(back.len(), cache.len());
        assert_eq!(save_hash_dict(&back), Ok(text));
    }
}

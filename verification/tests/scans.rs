use enchant_scan::cache::save_hash_dict;
use enchant_scan::cache::MemoCache;
use enchant_scan::fingerprint::calculate_file_hash;
use enchant_scan::pool::WorkerPool;
use enchant_scan::scan::is_region_file_name;
use enchant_scan::scan::is_region_file_name_bytes;
use enchant_scan::scan::record_all;
use enchant_scan::scan::record_file;
use enchant_scan::scan::scan_file;
use fastanvil::Region;
use fastnbt::Value;
use std::collections::HashMap;
use std::io::Cursor;

fn compound(entries: Vec<(&str, Value)>) -> Value {
    let mut map = HashMap::new();
    for (name, value) in entries {
        map.insert(name.to_string(), value);
    }
    Value::Compound(map)
}

fn region_file(entities: Vec<Value>, marker: i32) -> Vec<u8> {
    let root = compound(vec![
        ("DataVersion", Value::Int(marker)),
        ("block_entities", Value::List(entities)),
    ]);
    let mut region = Region::create(Cursor::new(Vec::new())).unwrap();
    region.write_chunk(4, 9, &fastnbt::to_bytes(&root).unwrap()).unwrap();
    region.into_inner().unwrap().into_inner()
}

fn chest_with(enchantment: &str) -> Value {
    let list = Value::List(vec![compound(vec![
        ("id", Value::String(enchantment.to_string())),
        ("lvl", Value::Short(3)),
    ])]);
    let item = compound(vec![
        ("Count", Value::Byte(1)),
        ("Slot", Value::Byte(13)),
        ("id", Value::String("minecraft:netherite_axe".to_string())),
        ("tag", compound(vec![("Enchantments", list)])),
    ]);
    compound(vec![
        ("x", Value::Int(100)),
        ("y", Value::Int(70)),
        ("z", Value::Int(-100)),
        ("id", Value::String("minecraft:chest".to_string())),
        ("Items", Value::List(vec![item])),
    ])
}

#[test]
fn region_files_end_in_mca() {
    assert!(is_region_file_name("r.0.0.mca"));
    assert!(is_region_file_name("r.-1.12.mca"));
    assert!(is_region_file_name("a.mca"));
    assert!(is_region_file_name("..mca"));
    assert!(!is_region_file_name(".mca"));
    assert!(!is_region_file_name("mca"));
    assert!(!is_region_file_name(""));
    assert!(!is_region_file_name("r.0.0.mcr"));
    assert!(!is_region_file_name("r.0.0.MCA"));
    assert!(!is_region_file_name("r.0.0.mca.bak"));
    assert!(!is_region_file_name("r.0.0.mca "));
    assert!(!is_region_file_name("r.0.0mca"));
    assert!(!is_region_file_name("level.dat"));
    assert!(is_region_file_name("r\u{e9}gion.mca"));
}

#[test]
fn file_with_target_is_recorded_true() {
    let data = region_file(vec![chest_with("minecraft:timber")], 1);
    let entry = scan_file(&data);
    assert_eq!(entry.fingerprint, calculate_file_hash(&data));
    assert!(entry.found);
    let mut cache = MemoCache::new();
    record_all(&mut cache, &vec![data.clone()]);
    assert_eq!(cache.len(), 1);
    assert_eq!(cache.lookup(&calculate_file_hash(&data)), Some(true));
}

#[test]
fn file_without_containers_is_recorded_false() {
    let data = region_file(vec![], 1);
    let entry = scan_file(&data);
    assert!(!entry.found);
    let mut cache = MemoCache::new();
    record_all(&mut cache, &vec![data.clone()]);
    assert_eq!(cache.len(), 1);
    assert_eq!(cache.lookup(&calculate_file_hash(&data)), Some(false));
}

#[test]
fn copies_share_one_entry() {
    let data = region_file(vec![chest_with("minecraft:vein_miner")], 1);
    let copy = data.clone();
    assert_eq!(scan_file(&data).fingerprint, scan_file(&copy).fingerprint);
    let mut cache = MemoCache::new();
    record_all(&mut cache, &vec![data.clone(), copy]);
    assert_eq!(cache.len(), 1);
    assert_eq!(cache.lookup(&calculate_file_hash(&data)), Some(true));
}

#[test]
fn unreadable_file_is_recorded_false() {
    let mut cache = MemoCache::new();
    record_file(&mut cache, &[1, 2, 3]);
    record_file(&mut cache, &vec![0u8; 8192]);
    assert_eq!(cache.len(), 2);
    assert_eq!(cache.lookup(&calculate_file_hash(&[1, 2, 3])), Some(false));
    assert_eq!(cache.lookup(&calculate_file_hash(&vec![0u8; 8192])), Some(false));
}

#[test]
fn remembered_outcome_is_written_over() {
    let data = region_file(vec![chest_with("minecraft:timber")], 1);
    let mut cache = MemoCache::new();
    cache.insert(calculate_file_hash(&data), false);
    record_file(&mut cache, &data);
    assert_eq!(cache.len(), 1);
    assert_eq!(cache.lookup(&calculate_file_hash(&data)), Some(true));
}

#[test]
fn two_runs_give_the_same_memo() {
    let files = vec![
        region_file(vec![chest_with("minecraft:timber")], 1),
        region_file(vec![chest_with("minecraft:sharpness")], 2),
        region_file(vec![], 3),
        vec![0u8; 5000],
    ];
    let mut first = MemoCache::new();
    record_all(&mut first, &files);
    let mut second = MemoCache::new();
    record_all(&mut second, &files);
    assert_eq!(first.len(), 4);
    assert_eq!(save_hash_dict(&first), save_hash_dict(&second));
    let mut backwards = MemoCache::new();
    let reversed: Vec<Vec<u8>> = files.iter().rev().cloned().collect();
    record_all(&mut backwards, &reversed);
    assert_eq!(save_hash_dict(&first), save_hash_dict(&backwards));
    assert_eq!(first.lookup(&calculate_file_hash(&files[0])), Some(true));
    assert_eq!(first.lookup(&calculate_file_hash(&files[1])), Some(false));
    assert_eq!(first.lookup(&calculate_file_hash(&files[2])), Some(false));
    assert_eq!(first.lookup(&calculate_file_hash(&files[3])), Some(false));
}

#[test]
fn pool_holds_no_more_than_its_limit() {
    let mut pool = WorkerPool::new(2);
    assert_eq!(pool.in_flight(), 0);
    assert_eq!(pool.submit(10), None);
    assert_eq!(pool.submit(11), None);
    assert_eq!(pool.in_flight(), 2);
    assert_eq!(pool.submit(12), Some(10));
    assert_eq!(pool.in_flight(), 2);
    assert_eq!(pool.submit(13), Some(11));
    assert_eq!(pool.drain(), vec![12, 13]);
    assert_eq!(pool.in_flight(), 0);
    assert_eq!(pool.drain(), Vec::<usize>::new());
    assert_eq!(pool.submit(14), None);
}

#[test]
fn pool_of_one_runs_one_task_at_a_time() {
    let mut pool = WorkerPool::new(1);
    assert_eq!(pool.submit(0), None);
    assert_eq!(pool.submit(1), Some(0));
    assert_eq!(pool.submit(2), Some(1));
    assert_eq!(pool.drain(), vec![2]);
}

#[test]
fn pool_without_room_is_given_room_for_one() {
    let mut pool = WorkerPool::new(0);
    assert_eq!(pool.submit(0), None);
    assert_eq!(pool.submit(1), Some(0));
    assert_eq!(pool.in_flight(), 1);
}

#[test]
fn region_file_names_are_judged_by_their_bytes() {
    assert!(is_region_file_name_bytes(b"r.0.0.mca"));
    assert!(is_region_file_name_bytes(b"a.mca"));
    assert!(is_region_file_name_bytes(&[0xff, 0xfe, b'.', b'm', b'c', b'a']));
    assert!(!is_region_file_name_bytes(b".mca"));
    assert!(!is_region_file_name_bytes(b""));
    assert!(!is_region_file_name_bytes(b"r.0.0.mcb"));
    assert!(!is_region_file_name_bytes(b"r.0.0.nca"));
    assert!(!is_region_file_name_bytes(b"r.0.0.mba"));
    assert!(!is_region_file_name_bytes(b"r.0.0,mca"));
    assert!(!is_region_file_name_bytes(&[b'r', b'.', b'm', b'c', 0xe1]));
}

#[test]
fn one_match_is_saved_as_one_true_entry() {
    let data = region_file(vec![chest_with("minecraft:timber")], 1);
    let mut cache = MemoCache::new();
    record_all(&mut cache, &vec![data.clone()]);
    let text = save_hash_dict(&cache).unwrap();
    assert_eq!(text, format!("{{\"{}\":true}}", calculate_file_hash(&data)));
}

#[test]
fn order_and_copies_do_not_change_the_memo() {
    let a = region_file(vec![chest_with("minecraft:timber")], 1);
    let b = region_file(vec![chest_with("minecraft:looting")], 2);
    let c = region_file(vec![], 3);
    let mut first = MemoCache::new();
    record_all(&mut first, &vec![a.clone(), b.clone(), c.clone()]);
    let mut second = MemoCache::new();
    record_all(&mut second, &vec![c.clone(), a.clone(), c, b.clone(), a, b]);
    assert_eq!(first.len(), 3);
    assert_eq!(second.len(), 3);
    assert_eq!(save_hash_dict(&first), save_hash_dict(&second));
}

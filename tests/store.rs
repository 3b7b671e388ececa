use record_store::record::CounterKind;
use record_store::store::{ListResult, NewRecord, RecordStore, SortKey, StoreError, MAX_PAGE_SIZE};

fn fields(title: &str) -> NewRecord {
    NewRecord {
        title: title.to_string(),
        creator: "someone".to_string(),
        description: format!("about {}", title),
        locator: format!("https://example.com/{}", title),
    }
}

fn ids(r: &ListResult) -> Vec<u128> {
    r.items.iter().map(|v| v.id).collect()
}

fn store_of(n: u128) -> RecordStore {
    let mut s = RecordStore::new();
    for i in 0..n {
        assert_eq!(s.insert(i + 1, fields("r"), 1_000 + i as i64), Ok(i + 1));
    }
    s
}

#[test]
fn increments_add_up_exactly() {
    let mut s = store_of(3);
    for k in 1..=40u64 {
        assert_eq!(s.increment_counter(2, CounterKind::Likes), Ok(k));
        if k % 2 == 0 {
            assert_eq!(s.increment_counter(3, CounterKind::Likes), Ok(k / 2));
            assert_eq!(s.increment_counter(2, CounterKind::Views), Ok(k / 2));
        }
    }
    assert_eq!(s.read_counter(2, CounterKind::Likes), Ok(40));
    assert_eq!(s.read_counter(2, CounterKind::Views), Ok(20));
    assert_eq!(s.read_counter(3, CounterKind::Likes), Ok(20));
    assert_eq!(s.read_counter(1, CounterKind::Likes), Ok(0));
    assert_eq!(s.read_counter(3, CounterKind::Views), Ok(0));
}

#[test]
fn get_unknown_id_is_not_found() {
    let mut s = RecordStore::new();
    let mut made = Vec::new();
    for _ in 0..5 {
        made.push(s.create_record("t".to_string(), "c".to_string(), "d".to_string(), "l".to_string()).unwrap());
    }
    let unknown = (0..).map(|k: u128| k * 7 + 1).find(|k| !made.contains(k)).unwrap();
    assert!(matches!(s.get_record(unknown), Err(StoreError::NotFound)));
    assert!(matches!(RecordStore::new().get_record(0), Err(StoreError::NotFound)));
    for id in made {
        assert_eq!(s.get_record(id).unwrap().id, id);
    }
}

#[test]
fn get_returns_fields_and_counters() {
    let mut s = RecordStore::new();
    s.insert(77, fields("clip"), 5).unwrap();
    s.increment_counter(77, CounterKind::Views).unwrap();
    let v = s.get_record(77).unwrap();
    assert_eq!(v.id, 77);
    assert_eq!(v.title, "clip");
    assert_eq!(v.creator, "someone");
    assert_eq!(v.description, "about clip");
    assert_eq!(v.locator, "https://example.com/clip");
    assert_eq!(v.created_at, 5);
    assert_eq!(v.likes, 0);
    assert_eq!(v.views, 1);
}

#[test]
fn most_recent_first_orders_by_time_then_id() {
    let mut s = RecordStore::new();
    s.insert(5, fields("a"), 100).unwrap();
    s.insert(3, fields("b"), 300).unwrap();
    s.insert(9, fields("c"), 200).unwrap();
    s.insert(1, fields("d"), 200).unwrap();
    s.insert(4, fields("e"), 300).unwrap();
    let r = s.list(SortKey::MostRecentFirst, 0, 10);
    assert_eq!(ids(&r), vec![3, 4, 1, 9, 5]);
    let times: Vec<i64> = r.items.iter().map(|v| v.created_at).collect();
    assert_eq!(times, vec![300, 300, 200, 200, 100]);
}

#[test]
fn most_liked_first_orders_by_likes() {
    let mut s = store_of(4);
    for (id, n) in [(1u128, 3u64), (2, 1), (3, 3), (4, 7)] {
        for _ in 0..n {
            s.increment_counter(id, CounterKind::Likes).unwrap();
        }
    }
    let r = s.list(SortKey::MostLikedFirst, 0, 10);
    assert_eq!(ids(&r), vec![4, 1, 3, 2]);
    let likes: Vec<u64> = r.items.iter().map(|v| v.likes).collect();
    assert_eq!(likes, vec![7, 3, 3, 1]);
}

#[test]
fn pages_of_twenty_five() {
    let s = store_of(25);
    let p2 = s.list(SortKey::MostRecentFirst, 2, 10);
    assert_eq!(p2.total_count, 25);
    assert_eq!(p2.total_pages, 3);
    assert_eq!(p2.items.len(), 5);
    assert_eq!(ids(&p2), vec![5, 4, 3, 2, 1]);
    let p3 = s.list(SortKey::MostRecentFirst, 3, 10);
    assert_eq!(p3.total_pages, 3);
    assert_eq!(p3.items.len(), 0);
    let p0 = s.list(SortKey::MostRecentFirst, 0, 10);
    assert_eq!(ids(&p0), (16..=25).rev().collect::<Vec<u128>>());
    let far = s.list(SortKey::MostLikedFirst, u64::MAX, 10);
    assert_eq!(far.items.len(), 0);
    assert_eq!(far.total_pages, 3);
}

#[test]
fn page_size_is_clamped() {
    let s = store_of(60);
    let big = s.list(SortKey::MostRecentFirst, 0, 1000);
    assert_eq!(big.items.len(), MAX_PAGE_SIZE as usize);
    assert_eq!(big.total_pages, 2);
    let zero = s.list(SortKey::MostRecentFirst, 1, 0);
    assert_eq!(zero.items.len(), 1);
    assert_eq!(zero.total_pages, 60);
    assert_eq!(ids(&zero), vec![59]);
    let empty = RecordStore::new().list(SortKey::MostRecentFirst, 0, 10);
    assert_eq!(empty.total_count, 0);
    assert_eq!(empty.total_pages, 0);
    assert!(empty.items.is_empty());
}

#[test]
fn liked_example_lists_b_c_a() {
    let mut s = RecordStore::new();
    let a = s.create_record("A".to_string(), "x".to_string(), "".to_string(), "".to_string()).unwrap();
    let b = s.create_record("B".to_string(), "x".to_string(), "".to_string(), "".to_string()).unwrap();
    let c = s.create_record("C".to_string(), "x".to_string(), "".to_string(), "".to_string()).unwrap();
    for _ in 0..5 {
        s.increment_counter(b, CounterKind::Likes).unwrap();
    }
    for _ in 0..2 {
        s.increment_counter(c, CounterKind::Likes).unwrap();
    }
    let r = s.list_records("popular", 0, 10).unwrap();
    assert_eq!(ids(&r), vec![b, c, a]);
    let titles: Vec<String> = r.items.iter().map(|v| v.title.clone()).collect();
    assert_eq!(titles, vec!["B", "C", "A"]);
}

#[test]
fn increment_unknown_is_not_found_and_changes_nothing() {
    let mut s = store_of(2);
    s.increment_counter(1, CounterKind::Likes).unwrap();
    assert_eq!(s.increment_counter(99, CounterKind::Likes), Err(StoreError::NotFound));
    assert_eq!(s.increment_counter(99, CounterKind::Views), Err(StoreError::NotFound));
    assert_eq!(s.len(), 2);
    assert_eq!(s.read_counter(1, CounterKind::Likes), Ok(1));
    assert_eq!(s.read_counter(2, CounterKind::Likes), Ok(0));
    assert_eq!(s.read_counter(99, CounterKind::Likes), Err(StoreError::NotFound));
}

#[test]
fn hundred_creates_give_distinct_ids() {
    let mut s = RecordStore::new();
    let mut made = Vec::new();
    for i in 0..100 {
        let id = s
            .create_record(format!("t{}", i), "c".to_string(), "d".to_string(), "l".to_string())
            .unwrap();
        made.push(id);
    }
    assert_eq!(s.len(), 100);
    let mut sorted = made.clone();
    sorted.sort();
    sorted.dedup();
    assert_eq!(sorted.len(), 100);
    let all = s.list(SortKey::MostRecentFirst, 0, 50);
    assert_eq!(all.total_count, 100);
    assert_eq!(all.total_pages, 2);
}

#[test]
fn created_record_starts_at_zero_with_current_time() {
    let mut s = RecordStore::new();
    let id = s.create_record("t".to_string(), "c".to_string(), "d".to_string(), "l".to_string()).unwrap();
    let v = s.get_record(id).unwrap();
    assert_eq!((v.likes, v.views), (0, 0));
    assert!(v.created_at > 1_577_836_800_000);
    assert_eq!(v.title, "t");
}

#[test]
fn insert_with_taken_id_is_refused() {
    let mut s = RecordStore::new();
    assert_eq!(s.insert(8, fields("first"), 1), Ok(8));
    assert_eq!(s.insert(8, fields("second"), 2), Err(StoreError::IdTaken));
    assert_eq!(s.len(), 1);
    assert_eq!(s.get_record(8).unwrap().title, "first");
}

#[test]
fn sort_key_names() {
    assert_eq!(SortKey::parse("recent"), Ok(SortKey::MostRecentFirst));
    assert_eq!(SortKey::parse("popular"), Ok(SortKey::MostLikedFirst));
    assert_eq!(SortKey::parse("Recent"), Err(StoreError::InvalidArgument));
    assert_eq!(SortKey::parse(""), Err(StoreError::InvalidArgument));
    assert_eq!(SortKey::parse("popularity"), Err(StoreError::InvalidArgument));
    let s = store_of(3);
    assert!(matches!(s.list_records("oldest", 0, 10), Err(StoreError::InvalidArgument)));
    assert_eq!(ids(&s.list_records("recent", 0, 2).unwrap()), vec![3, 2]);
}

#[test]
fn created_ids_are_version_four_uuids() {
    let mut s = RecordStore::new();
    for _ in 0..20 {
        let id = s.create_record("t".to_string(), "c".to_string(), "d".to_string(), "l".to_string()).unwrap();
        assert_eq!((id >> 76) & 0xf, 4);
        assert_eq!((id >> 62) & 0x3, 2);
    }
    assert_eq!(s.len(), 20);
}

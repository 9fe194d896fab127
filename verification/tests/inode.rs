use onedrive_fuse::error::{Error, Timestamp};
use onedrive_fuse::inode::{cvt_filename, AttrStep, Config, InodeAttr, InodePool, RemoteItem, ROOT_INO};

const SECOND: u64 = 1_000_000_000;

fn pool() -> InodePool {
    InodePool::new("root".to_string(), Config { attr_cache_ttl: 10 * SECOND }).unwrap()
}

fn attr(size: u64) -> InodeAttr {
    InodeAttr {
        size,
        mtime: Timestamp { sec: 1, nsec: 2 },
        crtime: Timestamp { sec: 3, nsec: 4 },
        is_directory: false,
    }
}

#[test]
fn root_inode_is_one_and_referenced_once() {
    let p = pool();
    assert_eq!(ROOT_INO, 1);
    assert_eq!(p.get_item_id(1), Ok("root".to_string()));
    assert_eq!(p.ref_count(1), Some(1));
}

#[test]
fn unknown_inode_is_invalid() {
    let mut p = pool();
    assert_eq!(p.get_item_id(77), Err(Error::InvalidInode(77)));
    assert_eq!(p.get_attr(77, 0), Err(Error::InvalidInode(77)));
    assert_eq!(p.free(77, 1), Err(Error::InvalidInode(77)));
    assert_eq!(p.attr_fetched(77, attr(1), 0), Err(Error::InvalidInode(77)));
    assert_eq!(p.lookup(77, "a"), Err(Error::InvalidInode(77)));
    assert_eq!(p.ref_count(77), None);
}

#[test]
fn lookup_checks_parent_and_name() {
    let p = pool();
    assert_eq!(p.lookup(1, "file.txt"), Ok("root".to_string()));
    assert_eq!(p.lookup(1, "a/b"), Err(Error::InvalidFileName("a/b".to_string())));
    assert_eq!(p.lookup(1, ""), Err(Error::InvalidFileName("".to_string())));
}

#[test]
fn file_names_must_not_hold_reserved_characters() {
    for name in ["a\"b", "a*b", "a:b", "a<b", "a>b", "a?b", "a/b", "a\\b", "a|b", ""] {
        assert_eq!(cvt_filename(name), Err(Error::InvalidFileName(name.to_string())));
    }
    for name in ["a", "a b", "a.b", "日本語", "a'b", "a&b"] {
        assert_eq!(cvt_filename(name), Ok(()));
    }
}

#[test]
fn lookup_fetched_counts_references() {
    let mut p = pool();
    let (ino, got, ttl) = p.lookup_fetched("child".to_string(), attr(5), 100).unwrap();
    assert_ne!(ino, 1);
    assert_eq!(got, attr(5));
    assert_eq!(ttl, 10 * SECOND);
    assert_eq!(p.get_item_id(ino), Ok("child".to_string()));
    assert_eq!(p.ref_count(ino), Some(1));
    let (again, _, _) = p.lookup_fetched("child".to_string(), attr(6), 200).unwrap();
    assert_eq!(again, ino);
    assert_eq!(p.ref_count(ino), Some(2));
}

#[test]
fn free_gives_references_back_and_frees_at_zero() {
    let mut p = pool();
    let (ino, _, _) = p.lookup_fetched("child".to_string(), attr(5), 100).unwrap();
    p.lookup_fetched("child".to_string(), attr(5), 100).unwrap();
    p.lookup_fetched("child".to_string(), attr(5), 100).unwrap();
    assert_eq!(p.free(ino, 2), Ok(()));
    assert_eq!(p.ref_count(ino), Some(1));
    assert_eq!(p.free(ino, 1), Ok(()));
    assert_eq!(p.ref_count(ino), None);
    assert_eq!(p.get_item_id(ino), Err(Error::InvalidInode(ino)));
    assert_eq!(p.free(ino, 1), Err(Error::InvalidInode(ino)));
}

#[test]
fn free_of_more_references_than_held_frees_the_inode() {
    let mut p = pool();
    let (ino, _, _) = p.lookup_fetched("child".to_string(), attr(5), 100).unwrap();
    assert_eq!(p.free(ino, 9), Ok(()));
    assert_eq!(p.ref_count(ino), None);
}

#[test]
fn freed_item_starts_anew() {
    let mut p = pool();
    let (ino, _, _) = p.lookup_fetched("child".to_string(), attr(5), 100).unwrap();
    p.free(ino, 1).unwrap();
    let (again, _, _) = p.lookup_fetched("child".to_string(), attr(5), 100).unwrap();
    assert_eq!(p.ref_count(again), Some(1));
    assert_eq!(p.get_item_id(again), Ok("child".to_string()));
}

#[test]
fn touch_keeps_no_reference() {
    let mut p = pool();
    let (ino, _, _) = p.lookup_fetched("child".to_string(), attr(5), 100).unwrap();
    assert_eq!(p.touch("child".to_string()), Ok(ino));
    assert_eq!(p.ref_count(ino), Some(1));
    let other = p.touch("other".to_string()).unwrap();
    assert_eq!(p.ref_count(other), None);
    assert_eq!(p.touch("root".to_string()), Ok(1));
    assert_eq!(p.ref_count(1), Some(1));
}

#[test]
fn attributes_are_served_from_the_pool_within_the_ttl() {
    let mut p = pool();
    let (ino, _, _) = p.lookup_fetched("child".to_string(), attr(5), 100).unwrap();
    assert_eq!(p.get_attr(ino, 100), Ok(AttrStep::Cached { attr: attr(5), ttl: 10 * SECOND }));
    assert_eq!(
        p.get_attr(ino, 100 + 4 * SECOND),
        Ok(AttrStep::Cached { attr: attr(5), ttl: 6 * SECOND })
    );
    assert_eq!(
        p.get_attr(ino, 99 + 10 * SECOND),
        Ok(AttrStep::Cached { attr: attr(5), ttl: 1 })
    );
    assert_eq!(
        p.get_attr(ino, 100 + 10 * SECOND),
        Ok(AttrStep::Fetch { item_id: "child".to_string() })
    );
    assert_eq!(
        p.get_attr(ino, 101 + 10 * SECOND),
        Ok(AttrStep::Fetch { item_id: "child".to_string() })
    );
    assert_eq!(p.get_attr(ino, 50), Ok(AttrStep::Cached { attr: attr(5), ttl: 10 * SECOND }));
}

#[test]
fn attributes_are_fetched_when_none_are_kept() {
    let mut p = pool();
    assert_eq!(p.get_attr(1, 0), Ok(AttrStep::Fetch { item_id: "root".to_string() }));
    assert_eq!(p.attr_fetched(1, attr(9), 7), Ok((attr(9), 10 * SECOND)));
    assert_eq!(p.get_attr(1, 8), Ok(AttrStep::Cached { attr: attr(9), ttl: 10 * SECOND - 1 }));
    assert_eq!(p.ref_count(1), Some(1));
}

#[test]
fn parse_time_reads_utc_times() {
    assert_eq!(
        InodeAttr::parse_time("2020-01-02T03:04:05.678Z"),
        Some(Timestamp { sec: 1577934245, nsec: 678_000_000 })
    );
    assert_eq!(
        InodeAttr::parse_time("2020-01-02T03:04:05Z"),
        Some(Timestamp { sec: 1577934245, nsec: 0 })
    );
    assert_eq!(InodeAttr::parse_time("1970-01-01T00:00:00Z"), Some(Timestamp { sec: 0, nsec: 0 }));
}

#[test]
fn parse_time_refuses_other_texts() {
    assert_eq!(InodeAttr::parse_time(""), None);
    assert_eq!(InodeAttr::parse_time("yesterday"), None);
    assert_eq!(InodeAttr::parse_time("2020-01-02 03:04:05Z"), None);
    assert_eq!(InodeAttr::parse_time("2020-01-02T03:04:05"), None);
}

#[test]
fn parse_drive_item_reads_id_size_times_and_kind() {
    let item = RemoteItem {
        id: Some("X".to_string()),
        size: Some(42),
        last_modified_date_time: Some("2020-01-02T03:04:05.5Z".to_string()),
        created_date_time: Some("2020-01-02T03:04:04Z".to_string()),
        folder: true,
    };
    assert_eq!(
        InodeAttr::parse_drive_item(&item),
        Some((
            "X".to_string(),
            InodeAttr {
                size: 42,
                mtime: Timestamp { sec: 1577934245, nsec: 500_000_000 },
                crtime: Timestamp { sec: 1577934244, nsec: 0 },
                is_directory: true,
            }
        ))
    );
}

#[test]
fn parse_drive_item_needs_all_fields() {
    let full = RemoteItem {
        id: Some("X".to_string()),
        size: Some(42),
        last_modified_date_time: Some("2020-01-02T03:04:05Z".to_string()),
        created_date_time: Some("2020-01-02T03:04:04Z".to_string()),
        folder: false,
    };
    assert!(InodeAttr::parse_drive_item(&full).is_some());
    assert_eq!(InodeAttr::parse_drive_item(&RemoteItem { id: None, ..full.clone() }), None);
    assert_eq!(InodeAttr::parse_drive_item(&RemoteItem { size: None, ..full.clone() }), None);
    assert_eq!(
        InodeAttr::parse_drive_item(&RemoteItem { last_modified_date_time: None, ..full.clone() }),
        None
    );
    assert_eq!(
        InodeAttr::parse_drive_item(&RemoteItem { created_date_time: None, ..full.clone() }),
        None
    );
    assert_eq!(
        InodeAttr::parse_drive_item(&RemoteItem {
            created_date_time: Some("never".to_string()),
            ..full.clone()
        }),
        None
    );
}

#[test]
fn negative_size_report_wraps_around() {
    let t = Timestamp { sec: 0, nsec: 0 };
    assert_eq!(InodeAttr::from_parts(-1, t, t, false).size, u64::MAX);
    assert_eq!(InodeAttr::from_parts(i64::MIN, t, t, false).size, 1u64 << 63);
    assert_eq!(InodeAttr::from_parts(0, t, t, false).size, 0);
    assert_eq!(InodeAttr::from_parts(i64::MAX, t, t, true).size, i64::MAX as u64);
}

#[test]
fn attributes_are_never_served_with_a_ttl_of_zero() {
    let mut p = InodePool::new("root".to_string(), Config { attr_cache_ttl: 0 }).unwrap();
    assert_eq!(p.attr_fetched(1, attr(9), 7), Ok((attr(9), 0)));
    assert_eq!(p.get_attr(1, 7), Ok(AttrStep::Fetch { item_id: "root".to_string() }));
}

#[test]
fn acquire_or_alloc_keeps_the_key_of_a_known_item() {
    let mut p = pool();
    let key = p.acquire_or_alloc("child".to_string()).unwrap();
    assert_eq!(p.acquire_or_alloc("child".to_string()), Ok(key));
    assert_eq!(p.acquire_or_alloc("child".to_string()), Ok(key));
    let other = p.acquire_or_alloc("other".to_string()).unwrap();
    assert_ne!(other, key);
    let ino = p.touch("child".to_string()).unwrap();
    assert_eq!(p.ref_count(ino), Some(3));
    assert_eq!(p.get_item_id(ino), Ok("child".to_string()));
}

#[test]
fn free_key_counts_down_and_frees_at_zero() {
    let mut p = pool();
    let key = p.acquire_or_alloc("child".to_string()).unwrap();
    p.acquire_or_alloc("child".to_string()).unwrap();
    p.acquire_or_alloc("child".to_string()).unwrap();
    let ino = p.touch("child".to_string()).unwrap();
    assert_eq!(p.free_key(key, 1), Some(()));
    assert_eq!(p.ref_count(ino), Some(2));
    assert_eq!(p.free_key(key, 2), Some(()));
    assert_eq!(p.ref_count(ino), None);
    assert_eq!(p.get_item_id(ino), Err(Error::InvalidInode(ino)));
    assert_eq!(p.free_key(key, 1), None);
    assert_eq!(p.free(ino, 1), Err(Error::InvalidInode(ino)));
    assert_eq!(p.ref_count(1), Some(1));
    let again = p.acquire_or_alloc("child".to_string()).unwrap();
    let ino = p.touch("child".to_string()).unwrap();
    assert_eq!(p.ref_count(ino), Some(1));
    assert_eq!(p.free_key(again, 5), Some(()));
    assert_eq!(p.ref_count(ino), None);
}

#[test]
fn lookup_of_a_known_child_counts_one_more() {
    let mut p = pool();
    let (ino, _, _) = p.lookup_fetched("child".to_string(), attr(5), 100).unwrap();
    for expected in 2..6u64 {
        assert_eq!(
            p.lookup_fetched("child".to_string(), attr(7), 200),
            Ok((ino, attr(7), 10 * SECOND))
        );
        assert_eq!(p.ref_count(ino), Some(expected));
    }
    assert_eq!(p.get_attr(ino, 200), Ok(AttrStep::Cached { attr: attr(7), ttl: 10 * SECOND }));
}

use bytes::Bytes;
use onedrive_fuse::disk_cache::{Alloc, DiskCache, RemoteChange};
use onedrive_fuse::error::{Error, Timestamp};
use onedrive_fuse::file::DiskCacheConfig;
use onedrive_fuse::slot::{DownloadEnd, Status, TruncatePlan, WritePlan, WriterStep};

fn cache(max_cached_file_size: u64, max_files: usize, max_total_size: u64) -> DiskCache {
    DiskCache::new(&DiskCacheConfig {
        enable: true,
        path: "/tmp/cache".to_string(),
        max_cached_file_size,
        max_files,
        max_total_size,
    })
}

fn fetch(cache: &mut DiskCache, id: &str, size: u64) -> Alloc {
    cache.try_alloc_and_fetch(id.to_string(), size, format!("tag-{}", id), None)
}

fn fill(cache: &mut DiskCache, slot: usize, size: usize) {
    if size == 0 {
        assert_eq!(cache.finish_download(slot), DownloadEnd::Complete { upload: None });
    } else {
        cache.accept_chunk(slot, Bytes::from(vec![1u8; size]));
    }
    assert_eq!(cache.slot(slot).map(|e| e.state.status), Some(Status::Available));
}

fn change(id: &str, deleted: bool, c_tag: Option<&str>) -> RemoteChange {
    RemoteChange { id: id.to_string(), folder: false, deleted, c_tag: c_tag.map(|t| t.to_string()) }
}

fn at(sec: i64) -> Timestamp {
    Timestamp { sec, nsec: 0 }
}

#[test]
fn new_cache_is_empty() {
    let mut c = cache(10, 4, 20);
    assert_eq!(c.total_size(), 0);
    assert_eq!(c.len(), 0);
    assert_eq!(c.get("A"), None);
    assert!(!c.holds(0));
}

#[test]
fn alloc_makes_a_downloading_slot_and_counts_its_bytes() {
    let mut c = cache(10, 4, 20);
    assert_eq!(fetch(&mut c, "A", 7), Alloc::Created(0));
    assert_eq!(c.total_size(), 7);
    assert_eq!(c.len(), 1);
    assert_eq!(c.get("A"), Some(0));
    assert_eq!(c.slot(0).map(|e| e.state.status), Some(Status::Downloading { truncate: None }));
    assert_eq!(c.slot(0).map(|e| e.state.file_size), Some(7));
    assert_eq!(c.slot(0).map(|e| e.state.available_size), Some(0));
    assert_eq!(c.slot(0).map(|e| e.state.c_tag.clone()), Some("tag-A".to_string()));
}

#[test]
fn alloc_of_a_cached_item_returns_its_slot() {
    let mut c = cache(10, 4, 20);
    assert_eq!(fetch(&mut c, "A", 7), Alloc::Created(0));
    assert_eq!(fetch(&mut c, "A", 3), Alloc::Existing(0));
    assert_eq!(c.total_size(), 7);
    assert_eq!(c.slot(0).map(|e| e.state.file_size), Some(7));
}

#[test]
fn alloc_refuses_a_file_above_the_cached_file_limit() {
    let mut c = cache(10, 4, 20);
    assert_eq!(fetch(&mut c, "A", 11), Alloc::NoSlot);
    assert_eq!(c.total_size(), 0);
    assert_eq!(c.len(), 0);
    assert_eq!(fetch(&mut c, "A", 10), Alloc::Created(0));
}

#[test]
fn alloc_evicts_in_the_order_of_use_until_the_bytes_fit() {
    let mut c = cache(10, 8, 12);
    assert_eq!(fetch(&mut c, "A", 4), Alloc::Created(0));
    assert_eq!(fetch(&mut c, "B", 4), Alloc::Created(1));
    assert_eq!(fetch(&mut c, "C", 4), Alloc::Created(2));
    fill(&mut c, 0, 4);
    fill(&mut c, 1, 4);
    fill(&mut c, 2, 4);
    assert_eq!(c.total_size(), 12);
    assert_eq!(c.get("A"), Some(0));
    assert_eq!(fetch(&mut c, "D", 6), Alloc::Created(3));
    assert_eq!(c.get("B"), None);
    assert_eq!(c.get("C"), None);
    assert_eq!(c.get("A"), Some(0));
    assert_eq!(c.get("D"), Some(3));
    assert!(!c.holds(1));
    assert!(!c.holds(2));
    assert_eq!(c.total_size(), 10);
    assert_eq!(c.len(), 2);
}

#[test]
fn alloc_evicts_no_more_than_needed() {
    let mut c = cache(10, 8, 12);
    assert_eq!(fetch(&mut c, "A", 4), Alloc::Created(0));
    assert_eq!(fetch(&mut c, "B", 4), Alloc::Created(1));
    assert_eq!(fetch(&mut c, "C", 4), Alloc::Created(2));
    fill(&mut c, 0, 4);
    fill(&mut c, 1, 4);
    fill(&mut c, 2, 4);
    assert_eq!(fetch(&mut c, "D", 3), Alloc::Created(3));
    assert_eq!(c.get("A"), None);
    assert_eq!(c.get("B"), Some(1));
    assert_eq!(c.get("C"), Some(2));
    assert_eq!(c.total_size(), 11);
}

#[test]
fn alloc_gives_up_when_the_index_runs_empty() {
    let mut c = cache(10, 8, 12);
    assert_eq!(fetch(&mut c, "A", 8), Alloc::Created(0));
    c.pin(0).unwrap();
    fill(&mut c, 0, 8);
    assert_eq!(fetch(&mut c, "B", 8), Alloc::NoSlot);
    assert_eq!(c.len(), 0);
    assert!(c.holds(0));
    assert_eq!(c.total_size(), 8);
    c.unpin(0);
    assert!(!c.holds(0));
    assert_eq!(c.total_size(), 0);
    assert_eq!(fetch(&mut c, "B", 8), Alloc::Created(1));
}

#[test]
fn index_holds_no_more_entries_than_max_files() {
    let mut c = cache(10, 2, 100);
    assert_eq!(fetch(&mut c, "A", 1), Alloc::Created(0));
    assert_eq!(fetch(&mut c, "B", 1), Alloc::Created(1));
    fill(&mut c, 0, 1);
    fill(&mut c, 1, 1);
    assert_eq!(fetch(&mut c, "C", 1), Alloc::Created(2));
    assert_eq!(c.len(), 2);
    assert_eq!(c.get("A"), None);
    assert_eq!(c.get("B"), Some(1));
    assert_eq!(c.get("C"), Some(2));
    assert_eq!(c.total_size(), 2);
}

#[test]
fn index_without_room_takes_no_slot() {
    let mut c = cache(10, 0, 100);
    assert_eq!(fetch(&mut c, "A", 3), Alloc::Created(0));
    assert_eq!(c.len(), 0);
    assert_eq!(c.get("A"), None);
    assert!(c.holds(0));
    assert_eq!(c.total_size(), 3);
}

#[test]
fn evicted_slot_lives_on_while_it_is_busy() {
    let mut c = cache(10, 8, 10);
    assert_eq!(fetch(&mut c, "A", 6), Alloc::Created(0));
    assert_eq!(fetch(&mut c, "B", 6), Alloc::NoSlot);
    assert_eq!(c.len(), 0);
    assert!(c.holds(0));
    assert!(matches!(c.accept_chunk(0, Bytes::from(vec![1, 2])), WriterStep::Abort));
    assert!(!c.holds(0));
    assert_eq!(c.total_size(), 0);
}

#[test]
fn insert_empty_replaces_and_invalidates_the_old_slot() {
    let mut c = cache(10, 8, 20);
    assert_eq!(fetch(&mut c, "A", 4), Alloc::Created(0));
    c.pin(0).unwrap();
    fill(&mut c, 0, 4);
    let slot = c.insert_empty("A".to_string(), "fresh".to_string());
    assert_eq!(slot, 1);
    assert_eq!(c.get("A"), Some(1));
    assert_eq!(c.slot(1).map(|e| e.state.status), Some(Status::Available));
    assert_eq!(c.slot(1).map(|e| e.state.file_size), Some(0));
    assert_eq!(c.slot(1).map(|e| e.state.c_tag.clone()), Some("fresh".to_string()));
    assert!(c.is_pinned(1));
    assert_eq!(c.slot(0).map(|e| e.state.status), Some(Status::Invalidated));
    assert_eq!(c.read(0, 0, 1), Err(Error::Invalidated));
    assert_eq!(c.total_size(), 4);
    c.unpin(0);
    assert!(!c.holds(0));
    assert_eq!(c.total_size(), 0);
}

#[test]
fn remove_takes_an_item_out_of_the_index() {
    let mut c = cache(10, 8, 20);
    assert_eq!(fetch(&mut c, "A", 4), Alloc::Created(0));
    fill(&mut c, 0, 4);
    c.remove("A");
    assert_eq!(c.get("A"), None);
    assert!(!c.holds(0));
    assert_eq!(c.total_size(), 0);
    c.remove("A");
    assert_eq!(c.len(), 0);
}

#[test]
fn sync_ignores_folders_and_unknown_items() {
    let mut c = cache(10, 8, 20);
    assert_eq!(fetch(&mut c, "A", 4), Alloc::Created(0));
    fill(&mut c, 0, 4);
    let changes = vec![
        RemoteChange { id: "A".to_string(), folder: true, deleted: true, c_tag: None },
        change("B", true, None),
        change("C", false, Some("x")),
    ];
    c.sync_items(&changes);
    assert_eq!(c.get("A"), Some(0));
    assert_eq!(c.slot(0).map(|e| e.state.status), Some(Status::Available));
}

#[test]
fn sync_keeps_a_slot_with_the_same_tag() {
    let mut c = cache(10, 8, 20);
    assert_eq!(fetch(&mut c, "A", 4), Alloc::Created(0));
    fill(&mut c, 0, 4);
    c.sync_items(&vec![change("A", false, Some("tag-A"))]);
    assert_eq!(c.get("A"), Some(0));
    assert_eq!(c.slot(0).map(|e| e.state.status), Some(Status::Available));
    assert_eq!(c.total_size(), 4);
}

#[test]
fn sync_invalidates_a_slot_with_another_tag() {
    let mut c = cache(10, 8, 20);
    assert_eq!(fetch(&mut c, "A", 4), Alloc::Created(0));
    c.pin(0).unwrap();
    fill(&mut c, 0, 4);
    c.sync_items(&vec![change("A", false, Some("other"))]);
    assert_eq!(c.get("A"), None);
    assert_eq!(c.slot(0).map(|e| e.state.status), Some(Status::Invalidated));
}

#[test]
fn sync_invalidates_a_deleted_item() {
    let mut c = cache(10, 8, 20);
    assert_eq!(fetch(&mut c, "A", 4), Alloc::Created(0));
    fill(&mut c, 0, 4);
    c.sync_items(&vec![change("A", true, None)]);
    assert_eq!(c.get("A"), None);
    assert!(!c.holds(0));
    assert_eq!(c.total_size(), 0);
}

#[test]
fn sync_counts_as_a_use() {
    let mut c = cache(10, 8, 8);
    assert_eq!(fetch(&mut c, "A", 4), Alloc::Created(0));
    assert_eq!(fetch(&mut c, "B", 4), Alloc::Created(1));
    fill(&mut c, 0, 4);
    fill(&mut c, 1, 4);
    c.sync_items(&vec![change("A", false, Some("tag-A"))]);
    assert_eq!(fetch(&mut c, "C", 4), Alloc::Created(2));
    assert_eq!(c.get("B"), None);
    assert_eq!(c.get("A"), Some(0));
}

#[test]
fn write_adds_the_growth_to_the_byte_count() {
    let mut c = cache(10, 8, 20);
    assert_eq!(fetch(&mut c, "A", 4), Alloc::Created(0));
    fill(&mut c, 0, 4);
    match c.write(0, 2, 5, at(1), 100) {
        Ok(WritePlan::Store { grown, .. }) => assert_eq!(grown, 3),
        other => panic!("{:?}", other),
    }
    assert_eq!(c.slot(0).map(|e| e.state.file_size), Some(7));
    assert_eq!(c.total_size(), 7);
    assert_eq!(c.write(0, 0, 1, at(2), 100).map(|_| ()), Ok(()));
    assert_eq!(c.total_size(), 7);
}

#[test]
fn truncate_leaves_the_byte_count() {
    let mut c = cache(10, 8, 20);
    assert_eq!(fetch(&mut c, "A", 4), Alloc::Created(0));
    fill(&mut c, 0, 4);
    assert_eq!(c.truncate(0, 1, at(1)), TruncatePlan::Resize { len: 1, upload: Some(0) });
    assert_eq!(c.slot(0).map(|e| e.state.file_size), Some(1));
    assert_eq!(c.total_size(), 4);
}

#[test]
fn byte_count_is_the_sum_of_the_slot_sizes() {
    let mut c = cache(50, 8, 100);
    assert_eq!(fetch(&mut c, "A", 10), Alloc::Created(0));
    assert_eq!(fetch(&mut c, "B", 20), Alloc::Created(1));
    assert_eq!(fetch(&mut c, "C", 0), Alloc::Created(2));
    fill(&mut c, 0, 10);
    fill(&mut c, 1, 20);
    fill(&mut c, 2, 0);
    c.write(2, 5, 5, at(1), 100).unwrap();
    c.write(0, 8, 10, at(1), 100).unwrap();
    let sum: u64 = (0..3).filter_map(|slot| c.slot(slot).map(|e| e.state.file_size)).sum();
    assert_eq!(sum, 18 + 20 + 10);
    assert_eq!(c.total_size(), sum);
    c.sync_items(&vec![change("B", true, None)]);
    let sum: u64 = (0..3).filter_map(|slot| c.slot(slot).map(|e| e.state.file_size)).sum();
    assert_eq!(sum, 28);
    assert_eq!(c.total_size(), sum);
}

#[test]
fn finished_upload_lets_an_unheld_evicted_slot_go() {
    let mut c = cache(10, 8, 10);
    assert_eq!(fetch(&mut c, "A", 4), Alloc::Created(0));
    fill(&mut c, 0, 4);
    let epoch = match c.write(0, 0, 1, at(1), 100) {
        Ok(WritePlan::Store { epoch, .. }) => epoch,
        other => panic!("{:?}", other),
    };
    assert_eq!(fetch(&mut c, "B", 10), Alloc::NoSlot);
    assert!(c.holds(0));
    assert_eq!(c.begin_upload(0, epoch), Some(4));
    assert!(c.finish_upload(0, epoch, 4, at(2), "new".to_string()).is_some());
    assert!(!c.holds(0));
    assert_eq!(c.total_size(), 0);
    assert_eq!(c.begin_upload(0, epoch), None);
}

#[test]
fn events_for_a_slot_that_is_gone_change_nothing() {
    let mut c = cache(10, 8, 10);
    assert!(matches!(c.accept_chunk(3, Bytes::from(vec![1])), WriterStep::Abort));
    assert_eq!(c.finish_download(3), DownloadEnd::Aborted);
    assert_eq!(c.begin_upload(3, 0), None);
    assert_eq!(c.finish_upload(3, 0, 1, at(1), "t".to_string()), None);
    assert_eq!(c.slot(3).map(|e| e.state.status), None);
    assert_eq!(c.total_size(), 0);
}

#[test]
fn waiting_flush_keeps_a_slot() {
    let mut c = cache(10, 8, 20);
    assert_eq!(fetch(&mut c, "A", 4), Alloc::Created(0));
    fill(&mut c, 0, 4);
    c.wait_begin(0).unwrap();
    c.remove("A");
    assert!(c.holds(0));
    assert_eq!(c.slot(0).map(|e| (e.pins, e.waits, e.cached)), Some((0, 1, false)));
    c.wait_end(0);
    assert!(!c.holds(0));
    assert_eq!(c.total_size(), 0);
}

#[test]
fn pins_count_open_files() {
    let mut c = cache(10, 8, 20);
    assert_eq!(fetch(&mut c, "A", 4), Alloc::Created(0));
    assert!(!c.is_pinned(0));
    c.pin(0).unwrap();
    c.pin(0).unwrap();
    assert_eq!(c.slot(0).map(|e| e.pins), Some(2));
    c.unpin(0);
    assert!(c.is_pinned(0));
    c.unpin(0);
    assert!(!c.is_pinned(0));
    assert!(c.holds(0));
}

#[test]
fn insert_empty_counts_as_the_latest_use() {
    let mut c = cache(10, 2, 100);
    assert_eq!(fetch(&mut c, "A", 1), Alloc::Created(0));
    assert_eq!(fetch(&mut c, "B", 1), Alloc::Created(1));
    fill(&mut c, 0, 1);
    fill(&mut c, 1, 1);
    let slot = c.insert_empty("A".to_string(), "fresh".to_string());
    assert_eq!(slot, 2);
    c.unpin(slot);
    assert_eq!(c.len(), 2);
    assert_eq!(fetch(&mut c, "C", 1), Alloc::Created(3));
    assert_eq!(c.get("B"), None);
    assert_eq!(c.get("A"), Some(2));
    assert_eq!(c.get("C"), Some(3));
}

#[test]
fn index_of_one_entry_keeps_the_latest() {
    let mut c = cache(10, 1, 100);
    assert_eq!(fetch(&mut c, "A", 1), Alloc::Created(0));
    fill(&mut c, 0, 1);
    assert_eq!(fetch(&mut c, "B", 2), Alloc::Created(1));
    assert_eq!(c.len(), 1);
    assert_eq!(c.get("A"), None);
    assert_eq!(c.get("B"), Some(1));
    assert_eq!(c.total_size(), 2);
    let slot = c.insert_empty("C".to_string(), "t".to_string());
    assert_eq!(c.get("B"), None);
    assert_eq!(c.get("C"), Some(slot));
    assert!(c.holds(1));
    assert_eq!(c.slot(1).map(|e| e.cached), Some(false));
}

#[test]
fn sync_without_a_tag_invalidates_a_cached_item_only() {
    let mut c = cache(10, 8, 20);
    assert_eq!(fetch(&mut c, "A", 4), Alloc::Created(0));
    fill(&mut c, 0, 4);
    c.pin(0).unwrap();
    c.sync_items(&vec![change("B", false, None)]);
    assert_eq!(c.get("A"), Some(0));
    assert_eq!(c.get("B"), None);
    assert_eq!(c.len(), 1);
    assert_eq!(c.slot(0).map(|e| e.state.status), Some(Status::Available));
    c.sync_items(&vec![change("A", false, None)]);
    assert_eq!(c.get("A"), None);
    assert_eq!(c.slot(0).map(|e| (e.state.status, e.cached)), Some((Status::Invalidated, false)));
}

#[test]
fn sync_takes_exactly_the_slots_that_a_change_hits() {
    let mut c = cache(10, 8, 40);
    for (slot, id) in ["A", "B", "C", "D"].iter().enumerate() {
        assert_eq!(fetch(&mut c, id, 2), Alloc::Created(slot));
        fill(&mut c, slot, 2);
        c.pin(slot).unwrap();
    }
    let changes = vec![
        change("A", false, Some("tag-A")),
        change("B", false, Some("other")),
        change("B", false, Some("tag-B")),
        change("C", true, Some("tag-C")),
        RemoteChange { id: "D".to_string(), folder: true, deleted: true, c_tag: None },
        change("E", true, None),
    ];
    c.sync_items(&changes);
    assert_eq!(c.get("A"), Some(0));
    assert_eq!(c.get("B"), None);
    assert_eq!(c.get("C"), None);
    assert_eq!(c.get("D"), Some(3));
    assert_eq!(c.len(), 2);
    let states: Vec<_> = (0..4).map(|v| c.slot(v).map(|e| (e.state.status, e.cached))).collect();
    assert_eq!(
        states,
        vec![
            Some((Status::Available, true)),
            Some((Status::Invalidated, false)),
            Some((Status::Invalidated, false)),
            Some((Status::Available, true)),
        ]
    );
    assert_eq!(c.slot(1).map(|e| e.state.c_tag.clone()), Some("tag-B".to_string()));
    assert!(!c.holds(4));
    assert_eq!(c.total_size(), 8);
}

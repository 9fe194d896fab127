use bytes::Bytes;
use onedrive_fuse::error::{Error, Timestamp};
use onedrive_fuse::file::UpdatedFileAttr;
use onedrive_fuse::slot::{
    DownloadEnd, FlushPlan, ReadPlan, SlotState, Status, TruncatePlan, WritePlan, WriterStep,
};

fn at(sec: i64) -> Timestamp {
    Timestamp { sec, nsec: 0 }
}

fn downloading(size: u64) -> SlotState {
    SlotState::new("X".to_string(), size, "t1".to_string(), None)
}

fn available(content_len: usize) -> SlotState {
    let mut slot = downloading(content_len as u64);
    if content_len > 0 {
        slot.accept_chunk(Bytes::from(vec![0u8; content_len]), false);
    } else {
        slot.finish_download();
    }
    assert_eq!(slot.status, Status::Available);
    slot
}

fn stored(step: WriterStep) -> (u64, Vec<u8>, bool, Option<u64>) {
    match step {
        WriterStep::Store { offset, data, finished, upload } => (offset, data.to_vec(), finished, upload),
        WriterStep::Abort => panic!("the writer stopped"),
    }
}

#[test]
fn new_slot_is_downloading_with_nothing_available() {
    let slot = downloading(10);
    assert_eq!(slot.status, Status::Downloading { truncate: None });
    assert_eq!(slot.file_size, 10);
    assert_eq!(slot.available_size, 0);
    assert_eq!(slot.item_id, "X");
    assert_eq!(slot.c_tag, "t1");
}

#[test]
fn new_empty_slot_is_available_with_size_zero() {
    let slot = SlotState::new_empty("Y".to_string(), "t0".to_string());
    assert_eq!(slot.status, Status::Available);
    assert_eq!(slot.file_size, 0);
    assert_eq!(slot.available_size, 0);
}

#[test]
fn read_past_file_size_is_empty() {
    let slot = available(4);
    assert_eq!(slot.read(4, 1), Ok(ReadPlan::Empty));
    assert_eq!(slot.read(100, 10), Ok(ReadPlan::Empty));
}

#[test]
fn read_of_size_zero_is_empty_in_every_status() {
    let mut slot = downloading(4);
    assert_eq!(slot.read(0, 0), Ok(ReadPlan::Empty));
    slot.finish_download();
    assert_eq!(slot.status, Status::DownloadFailed);
    assert_eq!(slot.read(0, 0), Ok(ReadPlan::Empty));
    slot.invalidate();
    assert_eq!(slot.read(0, 0), Ok(ReadPlan::Empty));
    let mut slot = available(4);
    assert_eq!(slot.read(0, 0), Ok(ReadPlan::Empty));
    slot.write(0, 1, at(1), 100).unwrap();
    assert_eq!(slot.status, Status::Dirty { epoch: 0, flush_armed: true });
    assert_eq!(slot.read(0, 0), Ok(ReadPlan::Empty));
}

#[test]
fn read_is_cut_at_the_end_of_the_file() {
    let slot = available(10);
    assert_eq!(slot.read(8, 5), Ok(ReadPlan::Serve { offset: 8, len: 2 }));
    assert_eq!(slot.read(0, 10), Ok(ReadPlan::Serve { offset: 0, len: 10 }));
    assert_eq!(slot.read(3, usize::MAX), Ok(ReadPlan::Serve { offset: 3, len: 7 }));
}

#[test]
fn read_while_downloading_waits_for_the_range() {
    let mut slot = downloading(10);
    assert_eq!(slot.read(0, 4), Ok(ReadPlan::Wait { until: 4 }));
    slot.accept_chunk(Bytes::from(vec![1, 2, 3, 4, 5]), false);
    assert_eq!(slot.available_size, 5);
    assert_eq!(slot.read(0, 4), Ok(ReadPlan::Serve { offset: 0, len: 4 }));
    assert_eq!(slot.read(2, 3), Ok(ReadPlan::Serve { offset: 2, len: 3 }));
    assert_eq!(slot.read(2, 4), Ok(ReadPlan::Wait { until: 6 }));
    assert_eq!(slot.read(8, 5), Ok(ReadPlan::Wait { until: 13 }));
}

#[test]
fn read_fails_on_failed_and_invalidated_slots() {
    let mut slot = downloading(10);
    slot.finish_download();
    assert_eq!(slot.read(0, 1), Err(Error::DownloadFailed));
    slot.invalidate();
    assert_eq!(slot.read(0, 1), Err(Error::Invalidated));
}

#[test]
fn write_beyond_max_size_is_too_large_whatever_the_status() {
    let mut slot = downloading(10);
    assert_eq!(slot.write(5, 6, at(1), 10), Err(Error::FileTooLarge));
    let mut slot = available(10);
    assert_eq!(slot.write(5, 6, at(1), 10), Err(Error::FileTooLarge));
    assert_eq!(slot.write(u64::MAX, 1, at(1), u64::MAX), Err(Error::FileTooLarge));
    slot.invalidate();
    assert_eq!(slot.write(5, 6, at(1), 10), Err(Error::FileTooLarge));
    assert_eq!(slot.status, Status::Invalidated);
}

#[test]
fn write_while_downloading_waits() {
    let mut slot = downloading(10);
    assert_eq!(slot.write(0, 1, at(1), 100), Ok(WritePlan::Wait));
    assert_eq!(slot.status, Status::Downloading { truncate: None });
}

#[test]
fn write_fails_on_failed_and_invalidated_slots() {
    let mut slot = downloading(10);
    slot.finish_download();
    assert_eq!(slot.write(0, 1, at(1), 100), Err(Error::DownloadFailed));
    slot.invalidate();
    assert_eq!(slot.write(0, 1, at(1), 100), Err(Error::Invalidated));
}

#[test]
fn write_makes_the_slot_dirty_and_grows_the_file() {
    let mut slot = available(4);
    let plan = slot.write(2, 5, at(7), 100);
    assert_eq!(
        plan,
        Ok(WritePlan::Store {
            offset: 2,
            grown: 3,
            epoch: 0,
            attr: UpdatedFileAttr { item_id: "X".to_string(), size: 7, mtime: at(7), c_tag: None },
        })
    );
    assert_eq!(slot.status, Status::Dirty { epoch: 0, flush_armed: true });
    assert_eq!(slot.file_size, 7);
    assert_eq!(slot.available_size, 7);
}

#[test]
fn write_inside_the_file_keeps_its_size() {
    let mut slot = available(10);
    match slot.write(2, 3, at(7), 100) {
        Ok(WritePlan::Store { grown, attr, .. }) => {
            assert_eq!(grown, 0);
            assert_eq!(attr.size, 10);
        }
        other => panic!("{:?}", other),
    }
    assert_eq!(slot.file_size, 10);
}

#[test]
fn every_write_starts_a_new_epoch() {
    let mut slot = available(4);
    let first = match slot.write(0, 1, at(1), 100) {
        Ok(WritePlan::Store { epoch, .. }) => epoch,
        other => panic!("{:?}", other),
    };
    let second = match slot.write(1, 1, at(2), 100) {
        Ok(WritePlan::Store { epoch, .. }) => epoch,
        other => panic!("{:?}", other),
    };
    assert_ne!(first, second);
    assert_eq!(slot.begin_upload(first), None);
    assert_eq!(slot.begin_upload(second), Some(4));
}

#[test]
fn epoch_counter_wraps_around() {
    let mut slot = available(1);
    slot.next_epoch = u64::MAX;
    assert_eq!(slot.truncate(1, at(1)), TruncatePlan::Resize { len: 1, upload: Some(u64::MAX) });
    assert_eq!(slot.next_epoch, 0);
    assert_eq!(slot.truncate(1, at(2)), TruncatePlan::Resize { len: 1, upload: Some(0) });
    assert_eq!(slot.status, Status::Dirty { epoch: 0, flush_armed: true });
}

#[test]
fn truncate_while_downloading_lowers_the_download_cap() {
    let mut slot = downloading(1000);
    assert_eq!(slot.truncate(300, at(5)), TruncatePlan::Resize { len: 300, upload: None });
    assert_eq!(slot.status, Status::Downloading { truncate: Some((300, at(5))) });
    assert_eq!(slot.file_size, 300);
    assert_eq!(slot.truncate(600, at(6)), TruncatePlan::Resize { len: 600, upload: None });
    assert_eq!(slot.status, Status::Downloading { truncate: Some((300, at(6))) });
    assert_eq!(slot.file_size, 600);
}

#[test]
fn truncate_of_an_available_slot_queues_an_upload() {
    let mut slot = available(10);
    assert_eq!(slot.truncate(4, at(5)), TruncatePlan::Resize { len: 4, upload: Some(0) });
    assert_eq!(slot.status, Status::Dirty { epoch: 0, flush_armed: true });
    assert_eq!(slot.file_size, 4);
    assert_eq!(slot.available_size, 4);
}

#[test]
fn truncate_to_the_current_size_still_queues_an_upload() {
    let mut slot = available(10);
    assert_eq!(slot.truncate(10, at(5)), TruncatePlan::Resize { len: 10, upload: Some(0) });
    assert_eq!(slot.file_size, 10);
    assert_eq!(slot.begin_upload(0), Some(10));
}

#[test]
fn truncate_of_a_dirty_slot_renews_the_epoch() {
    let mut slot = available(10);
    slot.write(0, 1, at(1), 100).unwrap();
    assert_eq!(slot.truncate(3, at(5)), TruncatePlan::Resize { len: 3, upload: Some(1) });
    assert_eq!(slot.begin_upload(0), None);
    assert_eq!(slot.begin_upload(1), Some(3));
}

#[test]
fn truncate_of_a_failed_or_invalidated_slot_asks_to_refetch() {
    let mut slot = downloading(10);
    slot.finish_download();
    assert_eq!(slot.truncate(3, at(5)), TruncatePlan::Refetch);
    assert_eq!(slot.status, Status::DownloadFailed);
    assert_eq!(slot.file_size, 10);
    slot.invalidate();
    assert_eq!(slot.truncate(3, at(5)), TruncatePlan::Refetch);
    assert_eq!(slot.status, Status::Invalidated);
}

#[test]
fn flush_answers_by_status() {
    let mut slot = downloading(10);
    assert_eq!(slot.flush(), Ok(FlushPlan::WaitDownload));
    slot.finish_download();
    assert_eq!(slot.flush(), Err(Error::DownloadFailed));
    slot.invalidate();
    assert_eq!(slot.flush(), Ok(FlushPlan::Done));
    let mut slot = available(10);
    assert_eq!(slot.flush(), Ok(FlushPlan::Done));
}

#[test]
fn first_flush_of_an_epoch_triggers_the_upload() {
    let mut slot = available(10);
    slot.write(0, 1, at(1), 100).unwrap();
    assert_eq!(slot.flush(), Ok(FlushPlan::WaitUpload { epoch: 0, trigger: true }));
    assert_eq!(slot.flush(), Ok(FlushPlan::WaitUpload { epoch: 0, trigger: false }));
    slot.write(0, 1, at(2), 100).unwrap();
    assert_eq!(slot.flush(), Ok(FlushPlan::WaitUpload { epoch: 1, trigger: true }));
}

#[test]
fn writer_stores_chunks_in_order() {
    let mut slot = downloading(5);
    let (offset, data, finished, upload) = stored(slot.accept_chunk(Bytes::from(vec![1, 2]), false));
    assert_eq!((offset, data, finished, upload), (0, vec![1, 2], false, None));
    assert_eq!(slot.available_size, 2);
    let (offset, data, finished, upload) = stored(slot.accept_chunk(Bytes::from(vec![3, 4, 5]), false));
    assert_eq!((offset, data, finished, upload), (2, vec![3, 4, 5], true, None));
    assert_eq!(slot.status, Status::Available);
    assert_eq!(slot.available_size, 5);
}

#[test]
fn writer_cuts_a_chunk_that_goes_beyond_the_cap() {
    let mut slot = SlotState::new("X".to_string(), 10, "t1".to_string(), Some((3, at(1))));
    let (offset, data, finished, upload) =
        stored(slot.accept_chunk(Bytes::from(vec![1, 2, 3, 4, 5]), false));
    assert_eq!((offset, data, finished, upload), (0, vec![1, 2, 3], true, Some(0)));
    assert_eq!(slot.status, Status::Dirty { epoch: 0, flush_armed: true });
    assert_eq!(slot.available_size, 10);
}

#[test]
fn writer_stops_when_it_alone_holds_the_slot() {
    let mut slot = downloading(5);
    assert!(matches!(slot.accept_chunk(Bytes::from(vec![1, 2]), true), WriterStep::Abort));
    assert_eq!(slot.available_size, 0);
    assert_eq!(slot.status, Status::Downloading { truncate: None });
}

#[test]
fn writer_goes_on_alone_when_a_truncation_is_pending() {
    let mut slot = SlotState::new("X".to_string(), 5, "t1".to_string(), Some((5, at(1))));
    let (offset, data, finished, _) = stored(slot.accept_chunk(Bytes::from(vec![1, 2]), true));
    assert_eq!((offset, data, finished), (0, vec![1, 2], false));
}

#[test]
fn writer_stops_on_a_slot_that_is_not_downloading() {
    let mut slot = downloading(5);
    slot.invalidate();
    assert!(matches!(slot.accept_chunk(Bytes::from(vec![1]), false), WriterStep::Abort));
    let mut slot = available(3);
    assert!(matches!(slot.accept_chunk(Bytes::from(vec![1]), false), WriterStep::Abort));
    assert_eq!(slot.status, Status::Available);
}

#[test]
fn available_size_never_goes_down_while_downloading() {
    let mut slot = downloading(100);
    let mut last = slot.available_size;
    for len in [10usize, 0, 25, 1, 30] {
        slot.accept_chunk(Bytes::from(vec![7u8; len]), false);
        assert!(last <= slot.available_size);
        last = slot.available_size;
    }
    assert_eq!(last, 66);
    slot.truncate(20, at(1));
    assert_eq!(slot.available_size, 66);
    slot.truncate(200, at(2));
    assert_eq!(slot.available_size, 66);
}

#[test]
fn download_that_ends_early_fails() {
    let mut slot = downloading(5);
    slot.accept_chunk(Bytes::from(vec![1, 2]), false);
    assert_eq!(slot.finish_download(), DownloadEnd::Failed);
    assert_eq!(slot.status, Status::DownloadFailed);
}

#[test]
fn download_of_an_empty_file_completes_at_its_end() {
    let mut slot = downloading(0);
    assert_eq!(slot.finish_download(), DownloadEnd::Complete { upload: None });
    assert_eq!(slot.status, Status::Available);
}

#[test]
fn download_end_after_truncation_below_the_position_completes_dirty() {
    let mut slot = downloading(10);
    slot.accept_chunk(Bytes::from(vec![1, 2, 3, 4]), false);
    slot.truncate(2, at(9));
    assert_eq!(slot.finish_download(), DownloadEnd::Complete { upload: Some(0) });
    assert_eq!(slot.status, Status::Dirty { epoch: 0, flush_armed: true });
    assert_eq!(slot.available_size, 2);
}

#[test]
fn download_end_on_a_slot_that_is_not_downloading_is_aborted() {
    let mut slot = available(3);
    assert_eq!(slot.finish_download(), DownloadEnd::Aborted);
    assert_eq!(slot.status, Status::Available);
}

#[test]
fn upload_success_makes_the_slot_available_with_the_new_tag() {
    let mut slot = available(3);
    slot.write(0, 3, at(1), 100).unwrap();
    assert_eq!(slot.begin_upload(0), Some(3));
    let event = slot.finish_upload(0, 3, at(4), "t2".to_string());
    assert_eq!(
        event,
        Some(UpdatedFileAttr {
            item_id: "X".to_string(),
            size: 3,
            mtime: at(4),
            c_tag: Some("t2".to_string()),
        })
    );
    assert_eq!(slot.status, Status::Available);
    assert_eq!(slot.c_tag, "t2");
}

#[test]
fn upload_of_an_old_epoch_is_ignored() {
    let mut slot = available(3);
    slot.write(0, 1, at(1), 100).unwrap();
    slot.write(1, 1, at(2), 100).unwrap();
    assert_eq!(slot.finish_upload(0, 3, at(4), "t2".to_string()), None);
    assert_eq!(slot.status, Status::Dirty { epoch: 1, flush_armed: true });
    assert_eq!(slot.c_tag, "t1");
}

#[test]
fn upload_on_an_invalidated_slot_is_ignored() {
    let mut slot = available(3);
    slot.write(0, 1, at(1), 100).unwrap();
    slot.invalidate();
    assert_eq!(slot.begin_upload(0), None);
    assert_eq!(slot.finish_upload(0, 3, at(4), "t2".to_string()), None);
    assert_eq!(slot.status, Status::Invalidated);
    assert_eq!(slot.c_tag, "t1");
}

#[test]
fn errors_describe_themselves() {
    assert_eq!(Error::InvalidHandle(3).message(), "invalid file handle");
    assert_eq!(Error::InvalidInode(3).message(), "invalid inode");
    assert_eq!(Error::InvalidFileName("a/b".to_string()).message(), "invalid file name");
    assert_eq!(Error::FileTooLarge.message(), "file too large");
    assert_eq!(Error::WriteWithoutCache.message(), "cannot write when disk cache is disabled");
    assert_eq!(
        Error::NonsequentialRead { current_pos: 1, try_offset: 2 }.message(),
        "non-sequential read on a streaming file"
    );
    assert_eq!(Error::DownloadFailed.message(), "download failed");
    assert_eq!(Error::Invalidated.message(), "file is changed on the remote side");
    assert_eq!(Error::PoolFull.message(), "pool is full");
}

#[test]
fn failed_and_invalidated_slots_stay_as_they_are() {
    for invalidate in [false, true] {
        let mut slot = downloading(10);
        slot.accept_chunk(Bytes::from(vec![1, 2]), false);
        slot.finish_download();
        if invalidate {
            slot.invalidate();
        }
        let status = slot.status;
        let _ = slot.write(0, 1, at(1), 100);
        slot.truncate(3, at(1));
        let _ = slot.flush();
        slot.accept_chunk(Bytes::from(vec![3]), false);
        slot.finish_download();
        slot.finish_upload(0, 3, at(1), "t9".to_string());
        assert_eq!(slot.status, status);
        assert_eq!((slot.file_size, slot.available_size, slot.next_epoch), (10, 2, 0));
        assert_eq!(slot.c_tag, "t1");
    }
}

#[test]
fn queue_upload_renews_the_epoch_of_a_dirty_slot() {
    let mut slot = available(3);
    assert_eq!(slot.queue_upload(), 0);
    assert_eq!(slot.status, Status::Dirty { epoch: 0, flush_armed: true });
    assert_eq!(slot.flush(), Ok(FlushPlan::WaitUpload { epoch: 0, trigger: true }));
    assert_eq!(slot.queue_upload(), 1);
    assert_eq!(slot.status, Status::Dirty { epoch: 1, flush_armed: true });
    assert_eq!(slot.begin_upload(0), None);
    assert_eq!(slot.finish_upload(0, 3, at(1), "old".to_string()), None);
    assert_eq!(slot.c_tag, "t1");
    assert_eq!(slot.begin_upload(1), Some(3));
    assert!(slot.finish_upload(1, 3, at(2), "new".to_string()).is_some());
    assert_eq!(slot.finish_upload(1, 3, at(2), "new".to_string()), None);
    assert_eq!(slot.status, Status::Available);
    assert_eq!(slot.c_tag, "new");
}

#[test]
fn queue_upload_ends_a_download_with_a_pending_truncation() {
    let mut slot = SlotState::new("X".to_string(), 5, "t1".to_string(), Some((0, at(1))));
    assert_eq!(slot.queue_upload(), 0);
    assert_eq!(slot.status, Status::Dirty { epoch: 0, flush_armed: true });
    assert_eq!(slot.available_size, 5);
    assert_eq!(slot.begin_upload(0), Some(5));
}

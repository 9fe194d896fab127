use bytes::Bytes;
use onedrive_fuse::error::Error;
use onedrive_fuse::stream::StreamState;
use std::collections::VecDeque;

fn chunks(parts: &[&[u8]]) -> VecDeque<Bytes> {
    parts.iter().map(|part| Bytes::copy_from_slice(part)).collect()
}

#[test]
fn stream_read_collects_chunks_and_keeps_the_rest() {
    let mut state = StreamState::new();
    let mut incoming = chunks(&[&[1, 2], &[3, 4, 5], &[6]]);
    assert_eq!(state.read(0, 3, &mut incoming), Ok(vec![1, 2, 3]));
    assert_eq!(state.current_pos(), 3);
    assert_eq!(incoming.len(), 1);
    assert_eq!(state.read(3, 2, &mut incoming), Ok(vec![4, 5]));
    assert_eq!(state.read(5, 1, &mut incoming), Ok(vec![6]));
    assert_eq!(state.current_pos(), 6);
    assert!(incoming.is_empty());
}

#[test]
fn stream_read_splits_one_chunk_over_many_reads() {
    let mut state = StreamState::new();
    let mut incoming = chunks(&[&[10, 11, 12, 13, 14]]);
    assert_eq!(state.read(0, 2, &mut incoming), Ok(vec![10, 11]));
    assert_eq!(state.read(2, 2, &mut incoming), Ok(vec![12, 13]));
    assert_eq!(state.read(4, 1, &mut incoming), Ok(vec![14]));
}

#[test]
fn stream_read_at_another_offset_is_refused() {
    let mut state = StreamState::new();
    let mut incoming = chunks(&[&[1, 2, 3]]);
    assert_eq!(
        state.read(1, 1, &mut incoming),
        Err(Error::NonsequentialRead { current_pos: 0, try_offset: 1 })
    );
    assert_eq!(incoming.len(), 1);
    assert_eq!(state.read(0, 2, &mut incoming), Ok(vec![1, 2]));
    assert_eq!(
        state.read(0, 1, &mut incoming),
        Err(Error::NonsequentialRead { current_pos: 2, try_offset: 0 })
    );
}

#[test]
fn stream_read_fails_when_the_download_ends_early() {
    let mut state = StreamState::new();
    let mut incoming = chunks(&[&[1, 2]]);
    assert_eq!(state.read(0, 3, &mut incoming), Err(Error::DownloadFailed));
    assert_eq!(state.current_pos(), 2);
    assert!(incoming.is_empty());
}

#[test]
fn stream_read_of_no_bytes_takes_nothing_from_the_stream() {
    let mut state = StreamState::new();
    let mut incoming = chunks(&[&[1, 2]]);
    assert_eq!(state.read(0, 0, &mut incoming), Ok(vec![]));
    assert_eq!(state.current_pos(), 0);
    assert_eq!(state.read(0, 2, &mut incoming), Ok(vec![1, 2]));
}

#[test]
fn stream_read_skips_empty_chunks() {
    let mut state = StreamState::new();
    let mut incoming = chunks(&[&[], &[1], &[], &[2, 3]]);
    assert_eq!(state.read(0, 3, &mut incoming), Ok(vec![1, 2, 3]));
}

#[test]
fn stream_steps_serve_a_read_chunk_by_chunk() {
    let mut state = StreamState::new();
    let mut read = state.start_read(0, 3).unwrap();
    assert!(state.take_buffered().is_none());
    assert!(!state.push_chunk(&mut read, Bytes::from(vec![1, 2])));
    assert!(state.push_chunk(&mut read, Bytes::from(vec![3, 4, 5])));
    assert_eq!(state.finish_read(read), Ok(vec![1, 2, 3]));
    assert_eq!(state.current_pos(), 3);
    let left = state.take_buffered().unwrap();
    assert_eq!(left.to_vec(), vec![4, 5]);
}

#[test]
fn stream_start_read_is_refused_off_position() {
    let state = StreamState::new();
    assert!(matches!(
        state.start_read(5, 1),
        Err(Error::NonsequentialRead { current_pos: 0, try_offset: 5 })
    ));
}

#[test]
fn stream_read_off_position_is_refused_whatever_its_size() {
    let mut state = StreamState::new();
    let mut incoming = chunks(&[&[1, 2, 3]]);
    assert_eq!(
        state.read(u64::MAX, usize::MAX, &mut incoming),
        Err(Error::NonsequentialRead { current_pos: 0, try_offset: u64::MAX })
    );
    assert_eq!(state.current_pos(), 0);
    assert_eq!(state.read(0, 3, &mut incoming), Ok(vec![1, 2, 3]));
}

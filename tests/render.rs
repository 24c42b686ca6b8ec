use raytracer::render::{RenderError, RenderSession};

#[test]
fn zero_workers_are_refused() {
    assert_eq!(
        RenderSession::new(4, 3, 0, 0u32).err(),
        Some(RenderError::NoWorkers)
    );
}

#[test]
fn oversized_frame_is_refused() {
    assert_eq!(
        RenderSession::new(usize::MAX, 2, 1, 0u32).err(),
        Some(RenderError::TooManyPixels)
    );
}

#[test]
fn new_session_keeps_its_settings() {
    let s = RenderSession::new(4, 3, 2, 0u32).unwrap();
    assert_eq!(s.width(), 4);
    assert_eq!(s.height(), 3);
    assert_eq!(s.workers(), 2);
    assert_eq!(s.completed_pixels(), 0);
    assert!(!s.is_complete());
}

#[test]
fn scanlines_are_handed_out_from_the_top() {
    let mut s = RenderSession::new(2, 3, 1, 0u32).unwrap();
    assert_eq!(s.next_scanline(), Some(2));
    assert_eq!(s.next_scanline(), Some(1));
    assert_eq!(s.next_scanline(), Some(0));
    assert_eq!(s.next_scanline(), None);
    assert_eq!(s.next_scanline(), None);
}

#[test]
fn rows_land_top_row_first() {
    let mut s = RenderSession::new(2, 3, 1, 0u32).unwrap();
    assert_eq!(s.commit_row(0, &vec![1, 2]), Ok(()));
    assert_eq!(s.completed_pixels(), 2);
    assert_eq!(s.commit_row(1, &vec![3, 4]), Ok(()));
    assert_eq!(s.commit_row(2, &vec![5, 6]), Ok(()));
    assert_eq!(s.completed_pixels(), 6);
    assert!(s.is_complete());
    assert_eq!(s.finish(), Ok(vec![5, 6, 3, 4, 1, 2]));
}

#[test]
fn commit_order_does_not_change_the_frame() {
    let rows = [vec![1u32, 2], vec![3, 4], vec![5, 6]];
    let mut forward = RenderSession::new(2, 3, 2, 0u32).unwrap();
    for (j, row) in rows.iter().enumerate() {
        forward.commit_row(j, row).unwrap();
    }
    let mut shuffled = RenderSession::new(2, 3, 2, 0u32).unwrap();
    for j in [1usize, 2, 0] {
        shuffled.commit_row(j, &rows[j]).unwrap();
    }
    assert_eq!(forward.finish(), shuffled.finish());
}

#[test]
fn incomplete_frame_cannot_be_read() {
    let mut s = RenderSession::new(2, 2, 1, 0u32).unwrap();
    s.commit_row(1, &vec![1, 2]).unwrap();
    assert!(!s.is_complete());
    assert_eq!(s.finish(), Err(RenderError::Incomplete));
}

#[test]
fn bad_commits_are_refused() {
    let mut s = RenderSession::new(2, 2, 1, 0u32).unwrap();
    assert_eq!(
        s.commit_row(2, &vec![1, 2]),
        Err(RenderError::ScanlineOutOfRange)
    );
    assert_eq!(s.commit_row(0, &vec![1, 2, 3]), Err(RenderError::RowLength));
    assert_eq!(s.commit_row(0, &vec![1, 2]), Ok(()));
    assert_eq!(
        s.commit_row(0, &vec![7, 8]),
        Err(RenderError::ScanlineAlreadyCommitted)
    );
    assert_eq!(s.commit_row(1, &vec![3, 4]), Ok(()));
    assert_eq!(s.finish(), Ok(vec![3, 4, 1, 2]));
}

#[test]
fn empty_image_is_complete_at_once() {
    let mut s = RenderSession::new(0, 0, 1, 0u32).unwrap();
    assert_eq!(s.next_scanline(), None);
    assert!(s.is_complete());
    assert_eq!(s.finish(), Ok(Vec::new()));
}

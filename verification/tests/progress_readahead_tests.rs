use ripunzip::progress::ProgressCounter;
use ripunzip::readahead::{ReadaheadWindow, SeekClass};
use ripunzip::{NullProgressReporter, UnzipProgressReporter, UnzipError};

#[test]
fn progress_counts_each_delta_exactly() {
    let mut counter = ProgressCounter::new();
    assert_eq!(counter.extracted_so_far(), 0);
    assert_eq!(counter.announced_total(), Err(UnzipError::ArchiveMalformed));
    counter.set_total(3);
    assert_eq!(counter.announced_total(), Ok(3));
    counter.add_extracted(2);
    counter.add_extracted(1);
    assert_eq!(counter.extracted_so_far(), 3);
}

#[test]
fn progress_empty_archive_reports_zero() {
    let mut counter = ProgressCounter::new();
    counter.set_total(0);
    assert_eq!(counter.announced_total(), Ok(0));
    assert_eq!(counter.extracted_so_far(), 0);
}

#[test]
fn progress_parallel_sum_is_exact() {
    // One hundred members of 64 KiB each, reported in interleaved slices as
    // concurrent workers would.
    let mut counter = ProgressCounter::new();
    counter.set_total(6_553_600);
    for _ in 0..100 {
        counter.add_extracted(32768);
        counter.add_extracted(32768);
    }
    assert_eq!(counter.extracted_so_far(), 6_553_600);
}

#[test]
fn null_reporter_accepts_all_calls() {
    let reporter = NullProgressReporter;
    reporter.total_bytes_expected(10);
    reporter.extraction_starting("hello.txt");
    reporter.bytes_extracted(10);
    reporter.extraction_finished("hello.txt");
}

#[test]
fn window_respects_its_bound() {
    let mut window = ReadaheadWindow::new(0, Some(65536));
    assert_eq!(window.capacity_remaining(), Some(65536));
    let chunk = vec![0xAAu8; 1024];
    window.accept(&chunk);
    assert_eq!(window.capacity_remaining(), Some(65536 - 1024));
}

#[test]
fn window_serves_bytes_in_order() {
    let mut window = ReadaheadWindow::new(100, None);
    window.accept(&[1, 2, 3, 4, 5]);
    let mut out = vec![0; 3];
    assert_eq!(window.take_front(&mut out), 3);
    assert_eq!(out, vec![1, 2, 3]);
    let mut rest = vec![0; 4];
    assert_eq!(window.take_front(&mut rest), 2);
    assert_eq!(&rest[..2], &[4, 5]);
}

#[test]
fn window_classifies_seeks() {
    let mut window = ReadaheadWindow::new(1000, Some(65536));
    window.accept(&vec![7u8; 100]);
    assert_eq!(window.classify_seek(1000), SeekClass::WithinWindow);
    assert_eq!(window.classify_seek(1050), SeekClass::WithinWindow);
    assert_eq!(window.classify_seek(1100), SeekClass::WithinWindow);
    assert_eq!(window.classify_seek(1101), SeekClass::NewStream);
    assert_eq!(window.classify_seek(999), SeekClass::NewStream);
}

#[test]
fn window_seek_within_discards_skipped_bytes() {
    let mut window = ReadaheadWindow::new(0, None);
    window.accept(&[10, 11, 12, 13]);
    window.advance_to(2);
    let mut out = vec![0; 2];
    assert_eq!(window.take_front(&mut out), 2);
    assert_eq!(out, vec![12, 13]);
}

#[test]
fn new_stream_warns_exactly_once() {
    let mut window = ReadaheadWindow::new(0, Some(65536));
    window.reposition(4_000_000);
    assert!(window.note_new_stream());
    window.reposition(2_000_000);
    assert!(!window.note_new_stream());
    assert!(!window.note_new_stream());
}

#[test]
fn describe_names_path_safety() {
    assert_eq!(
        UnzipError::PathUnsafe.describe(),
        "a member name escapes the output directory"
    );
}

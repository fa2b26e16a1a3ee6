use faster_all::batch::{BatchWriter, WriteStatus};

#[test]
fn test_three_chunks_all_succeed() {
    // Five records with chunks of two: three write calls, committed sums to
    // five.
    let mut w = BatchWriter::new(5, 2);
    let mut calls: usize = 0;
    let mut reported: usize = 0;
    while let Some((start, end)) = w.next_chunk() {
        assert_eq!(start, w.committed);
        assert!(end - start <= 2);
        calls += 1;
        reported += end - start;
        w.record_success();
    }
    assert_eq!(calls, 3);
    assert_eq!(reported, 5);
    assert_eq!(w.committed, 5);
    assert_eq!(w.chunks_done, 3);
    assert_eq!(w.status, WriteStatus::Done);
}

#[test]
fn test_exact_multiple() {
    let mut w = BatchWriter::new(6, 3);
    assert_eq!(w.next_chunk(), Some((0, 3)));
    w.record_success();
    assert_eq!(w.next_chunk(), Some((3, 6)));
    w.record_success();
    assert_eq!(w.status, WriteStatus::Done);
    assert_eq!(w.chunks_done, 2);
    assert_eq!(w.next_chunk(), None);
}

#[test]
fn test_empty_run_is_done() {
    let w = BatchWriter::new(0, 10000);
    assert_eq!(w.status, WriteStatus::Done);
    assert_eq!(w.chunks_done, 0);
    assert_eq!(w.next_chunk(), None);
}

#[test]
fn test_failure_on_second_chunk() {
    // Five records, chunks of two, the sink fails on chunk two of three:
    // exactly two records stay committed and chunk three is never handed
    // out.
    let mut w = BatchWriter::new(5, 2);
    assert_eq!(w.next_chunk(), Some((0, 2)));
    w.record_success();
    assert_eq!(w.next_chunk(), Some((2, 4)));
    w.record_failure();
    assert_eq!(w.committed, 2);
    assert_eq!(w.chunks_done, 1);
    assert_eq!(w.status, WriteStatus::Failed);
    assert_eq!(w.next_chunk(), None);
}

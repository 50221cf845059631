use pdf_ast::streaming::chunks::create_simple_chunk_processor;

#[test]
fn record_and_lookup_chunks() {
    let mut p = create_simple_chunk_processor();
    assert_eq!(p.chunk_size(), 65536);
    assert_eq!(p.overlap_size(), 4096);
    let info = p.record_chunk(100, vec![1, 2, 3], 4, 5, 0);
    assert_eq!(info.size, 3);
    assert_eq!(info.checksum, (1 * 31 + 2) * 31 + 3);
    p.record_chunk(0, vec![9], 1, 1, 1);
    assert_eq!(p.get_chunk(100), Some(&vec![1, 2, 3]));
    assert_eq!(p.get_chunk(50), None);
    assert_eq!(p.get_chunk_info(0).unwrap().error_count, 1);
    assert_eq!(p.get_processed_offsets(), vec![0, 100]);
    assert_eq!(p.verify_chunk(100).unwrap(), true);
    assert_eq!(p.verify_chunk(7).unwrap(), false);
}

#[test]
fn rerecording_replaces() {
    let mut p = create_simple_chunk_processor();
    p.record_chunk(10, vec![1], 1, 0, 0);
    p.record_chunk(10, vec![2, 2], 2, 0, 0);
    assert_eq!(p.get_processed_offsets(), vec![10]);
    assert_eq!(p.get_chunk(10), Some(&vec![2, 2]));
    assert_eq!(p.get_chunk_info(10).unwrap().node_count, 2);
}

#[test]
fn cleanup_keeps_highest_offsets() {
    let mut p = create_simple_chunk_processor();
    for off in [30u64, 10, 20, 40] {
        p.record_chunk(off, vec![off as u8], 0, 0, 0);
    }
    p.cleanup_cache(2);
    assert_eq!(p.get_chunk(10), None);
    assert_eq!(p.get_chunk(20), None);
    assert_eq!(p.get_chunk(30), Some(&vec![30]));
    assert_eq!(p.get_chunk(40), Some(&vec![40]));
    assert_eq!(p.get_processed_offsets(), vec![10, 20, 30, 40]);
    p.cleanup_cache(5);
    assert!(p.get_chunk(30).is_some());
}

#[test]
fn checksum_wraps() {
    let p = create_simple_chunk_processor();
    let data = vec![0xFFu8; 64];
    let mut expected = 0u32;
    for b in &data {
        expected = expected.wrapping_mul(31).wrapping_add(*b as u32);
    }
    assert_eq!(p.calculate_checksum(&data), expected);
}

use pdf_ast::streaming::chunks::{fallback_sub_chunks, ChunkProcessingResult, ChunkProcessor};

#[test]
fn chunk_steps_carry_the_overlap() {
    let p = ChunkProcessor::new(8, 2, 10);
    let first = p.chunk_step(0, &[], &[1, 2, 3, 4, 5, 6, 7, 8]);
    assert_eq!(first.chunk_data, vec![1, 2, 3, 4, 5, 6, 7, 8]);
    assert_eq!(first.chunk_offset, 0);
    assert_eq!(first.next_overlap, vec![7, 8]);
    assert_eq!(first.next_offset, 6);
    assert!(first.more);
    let second = p.chunk_step(first.next_offset, &first.next_overlap, &[7, 8, 9]);
    assert_eq!(second.chunk_data, vec![7, 8, 7, 8, 9]);
    assert_eq!(second.chunk_offset, 4);
    assert_eq!(second.next_overlap, vec![8, 9]);
    assert_eq!(second.next_offset, 7);
    assert!(!second.more);
}

#[test]
fn failed_chunks_split_in_kibibytes() {
    assert_eq!(fallback_sub_chunks(1024), None);
    assert_eq!(fallback_sub_chunks(10), None);
    assert_eq!(fallback_sub_chunks(2500), Some(vec![(0, 1024), (1024, 2048), (2048, 2500)]));
    assert_eq!(fallback_sub_chunks(2048), Some(vec![(0, 1024), (1024, 2048)]));
}

#[test]
fn chunk_totals_add_up() {
    let mut p = ChunkProcessor::new(8, 2, 10);
    let mut totals = ChunkProcessingResult::new();
    let a = p.record_chunk(0, vec![1, 2, 3], 4, 10, 0);
    totals.add_chunk_result(1, a);
    let b = p.record_chunk(6, vec![4, 5], 2, 5, 3);
    totals.add_chunk_result(0, b);
    assert_eq!(totals.total_chunks, 2);
    assert_eq!(totals.total_nodes, 6);
    assert_eq!(totals.total_errors, 3);
    assert_eq!(totals.total_warnings, 1);
    assert_eq!(totals.total_bytes, 5);
    assert_eq!(totals.total_processing_time_ms, 15);
    assert_eq!(totals.failed_chunk_count(), 1);
}

#[test]
fn cleanup_keeps_the_highest_offsets() {
    let mut p = ChunkProcessor::new(8, 2, 10);
    p.record_chunk(30, vec![3], 0, 0, 0);
    p.record_chunk(10, vec![1], 0, 0, 0);
    p.record_chunk(20, vec![2], 0, 0, 0);
    p.cleanup_cache(2);
    assert_eq!(p.get_chunk(10), None);
    assert_eq!(p.get_chunk(20), Some(&vec![2]));
    assert_eq!(p.get_chunk(30), Some(&vec![3]));
    assert_eq!(p.get_processed_offsets(), vec![10, 20, 30]);
}

use pdf_ast::streaming::chunks::{chunk_failure, sub_chunk_failure, ChunkErrorType, ChunkWarningType};

#[test]
fn failed_chunks_are_recorded_and_split() {
    let (errors, pieces) = chunk_failure(100, 40, "Bad");
    assert_eq!(errors.len(), 1);
    assert_eq!(errors[0].offset, 40);
    assert_eq!(errors[0].error_type, ChunkErrorType::ProcessingError);
    assert_eq!(errors[0].message, "Failed to process chunk: Bad");
    assert_eq!(pieces, None);
    let (errors, pieces) = chunk_failure(1500, 0, "\"oops\"");
    assert_eq!(errors.len(), 2);
    assert_eq!(errors[1].error_type, ChunkErrorType::FallbackProcessing);
    assert_eq!(errors[1].message, "Attempting sub-chunk processing");
    assert_eq!(pieces, Some(vec![(0, 1024), (1024, 1500)]));
    let w = sub_chunk_failure(4000, 1024, "Bad");
    assert_eq!(w.offset, 5024);
    assert_eq!(w.warning_type, ChunkWarningType::SubChunkError);
    assert_eq!(w.message, "Sub-chunk processing failed: Bad");
}

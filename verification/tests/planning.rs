use chunk_pipeline::config::WindowConfig;
use chunk_pipeline::planner::{plan, ChunkDescriptor};

fn cfg(context_limit: usize, overlap_margin: usize) -> WindowConfig {
    WindowConfig { context_limit, overlap_margin }
}

#[test]
fn concrete_scenario() {
    // 23 tokens, limit 10, margin 2: chunk size 8, ceil(23 / 8) = 3 chunks.
    let ds = plan(23, &cfg(10, 2)).unwrap();
    assert_eq!(ds.len(), 3);
    assert_eq!(
        ds[0],
        ChunkDescriptor { index: 0, start: 0, end: 8, context_start: 0, suffix_end: 10 }
    );
    assert_eq!(
        ds[1],
        ChunkDescriptor { index: 1, start: 8, end: 16, context_start: 6, suffix_end: 18 }
    );
    assert_eq!(
        ds[2],
        ChunkDescriptor { index: 2, start: 16, end: 23, context_start: 14, suffix_end: 23 }
    );
}

#[test]
fn degenerate_config_rejected() {
    assert!(plan(100, &cfg(50, 50)).is_err());
    assert!(plan(0, &cfg(50, 50)).is_err());
    assert!(plan(7, &cfg(3, 9)).is_err());
    assert!(WindowConfig::new(50, 50).is_err());
    assert!(WindowConfig::new(50, 49).is_ok());
}

#[test]
fn empty_input_yields_no_chunks() {
    let ds = plan(0, &cfg(10, 2)).unwrap();
    assert!(ds.is_empty());
}

#[test]
fn chunk_count_formula() {
    // total_chunks == ceil(token_count / (context_limit - overlap_margin))
    assert_eq!(plan(10, &cfg(10, 2)).unwrap().len(), 2);
    assert_eq!(plan(8, &cfg(10, 2)).unwrap().len(), 1);
    assert_eq!(plan(9, &cfg(10, 2)).unwrap().len(), 2);
    assert_eq!(plan(1, &cfg(10, 2)).unwrap().len(), 1);
    assert_eq!(plan(10_000, &cfg(500, 50)).unwrap().len(), 23);
    // Zero overlap degenerates to contiguous, non-overlapping chunks.
    assert_eq!(plan(10, &cfg(5, 0)).unwrap().len(), 2);
}

#[test]
fn partition_covers_all_tokens_once() {
    for &(n, cl, om) in &[(23usize, 10usize, 2usize), (100, 7, 3), (1, 10, 9), (64, 8, 0)] {
        let ds = plan(n, &cfg(cl, om)).unwrap();
        let mut next: usize = 0;
        for (i, d) in ds.iter().enumerate() {
            assert_eq!(d.index, i);
            assert_eq!(d.start, next, "content ranges must be contiguous");
            assert!(d.start < d.end, "content range must be non-empty");
            next = d.end;
        }
        assert_eq!(next, n, "content ranges must cover [0, n) exactly");
    }
}

#[test]
fn boundary_clamping() {
    for &(n, cl, om) in &[(23usize, 10usize, 2usize), (100, 7, 3), (5, 10, 4), (64, 8, 0)] {
        let ds = plan(n, &cfg(cl, om)).unwrap();
        let first = ds.first().unwrap();
        assert_eq!(first.context_start, first.start, "first context range is empty");
        let last = ds.last().unwrap();
        assert_eq!(last.suffix_end, last.end, "last suffix range is empty");
        for d in &ds {
            assert!(d.context_start <= d.start);
            assert!(d.start <= d.end);
            assert!(d.end <= d.suffix_end);
            assert!(d.suffix_end <= n);
        }
    }
}

#[test]
fn overlap_margin_respected() {
    let ds = plan(23, &cfg(10, 2)).unwrap();
    for d in &ds {
        assert!(d.start - d.context_start <= 2);
        assert!(d.suffix_end - d.end <= 2);
    }
}

use lookahead::params::shape_params;
use lookahead::scheduler::{GeneratedModel, ModelGenerator};

fn make(max: u32, beat: u32) -> (std::sync::mpsc::Sender<GeneratedModel<u64>>, ModelGenerator<u64>)
{
    let (tx, rx) = std::sync::mpsc::channel();
    (tx, ModelGenerator::new(rx, max, beat))
}

// End to end: max_window = 4, beat_interval = 4. The first advance(0) fills
// the queue and yields nothing; once all four jobs resolve, the next
// advance(0) yields the mesh for frame 0 and refills to timestamp 4.
#[test]
fn end_to_end_first_frames() {
    let (tx, mut g) = make(4, 4);
    assert_eq!(g.max_queue_size(), 4);
    assert_eq!(g.queue_size(), 0);

    let r = g.advance(0);
    assert!(r.yielded.is_none());
    assert_eq!(g.queue_size(), 4);
    assert_eq!(g.in_flight_jobs(), 4);
    let req_ts: Vec<u32> = r.requests.iter().map(|j| j.ts).collect();
    assert_eq!(req_ts, vec![0, 1, 2, 3]);
    for req in &r.requests {
        assert_eq!(req.params, shape_params(req.ts, 4));
    }

    // The pool resolves all four jobs, out of submission order.
    for &t in &[2u32, 0, 3, 1] {
        tx.send(GeneratedModel { ts: t, mesh: 100 + t as u64 }).unwrap();
    }

    let r2 = g.advance(0);
    let y = r2.yielded.expect("front job resolved, a mesh is due");
    assert_eq!(y.ts, 0);
    assert_eq!(y.mesh, 100);
    assert_eq!(g.queue_size(), 4);
    assert_eq!(g.job_timestamps(), vec![1, 2, 3, 4]);
    let req_ts: Vec<u32> = r2.requests.iter().map(|j| j.ts).collect();
    assert_eq!(req_ts, vec![4]);
    assert_eq!(g.in_flight_jobs(), 1);
}

// Yields are destructive: the same ready mesh is handed out at most once.
#[test]
fn yield_is_destructive() {
    let (tx, mut g) = make(3, 4);
    g.advance(0);
    for t in 0..3u32 {
        tx.send(GeneratedModel { ts: t, mesh: t as u64 }).unwrap();
    }
    let first = g.advance(0).yielded.expect("frame 0 ready");
    assert_eq!(first.ts, 0);
    let second = g.advance(0).yielded.expect("frame 1 ready");
    assert_eq!(second.ts, 1);
}

// Staleness discard: a completion for a timestamp that was evicted while in
// flight is silently dropped and corrupts nothing.
#[test]
fn stale_completion_is_discarded() {
    let (tx, mut g) = make(3, 5);
    g.advance(10);
    assert_eq!(g.job_timestamps(), vec![10, 11, 12]);

    // The clock jumps; everything tracked falls out of the window.
    g.advance(20);
    assert_eq!(g.job_timestamps(), vec![20, 21, 22]);

    // Results for evicted timestamps now arrive.
    tx.send(GeneratedModel { ts: 11, mesh: 7 }).unwrap();
    tx.send(GeneratedModel { ts: 5, mesh: 8 }).unwrap();

    let r = g.advance(20);
    assert!(r.yielded.is_none());
    assert!(r.requests.is_empty());
    assert_eq!(g.job_timestamps(), vec![20, 21, 22]);
    assert_eq!(g.queue_size(), 3);
    assert_eq!(g.in_flight_jobs(), 3);
}

// A completion for a slot that is already ready does not overwrite it.
#[test]
fn duplicate_completion_keeps_first_result() {
    let (tx, mut g) = make(2, 4);
    g.advance(0);
    tx.send(GeneratedModel { ts: 0, mesh: 1 }).unwrap();
    tx.send(GeneratedModel { ts: 0, mesh: 2 }).unwrap();
    let y = g.advance(0).yielded.expect("frame 0 ready");
    assert_eq!(y.mesh, 1);
}

// Window bound and monotonic advance: sweeping the frame counter from ts to
// ts + max_window + 5 never tracks more than max_window jobs, and evicts
// every job that falls more than a window behind.
#[test]
fn window_bound_over_sweep() {
    let (_tx, mut g) = make(4, 2);
    let start: u32 = 7;
    for t in start..=start + 4 + 5 {
        g.advance(t);
        assert!(g.queue_size() <= 4);
        for &m in g.job_timestamps().iter() {
            assert!(m as i64 >= t as i64 - 4);
            assert!(m as i64 <= t as i64 + 4);
        }
    }
    // After the sweep nothing from the starting window's past survives.
    for &m in g.job_timestamps().iter() {
        assert!(m >= start + 5);
    }
}

// Skipped frames: a forward clock jump inside the window keeps the overlap
// and only regenerates what the new window needs.
#[test]
fn forward_jump_keeps_overlap() {
    let (tx, mut g) = make(4, 4);
    g.advance(0);
    for t in 0..4u32 {
        tx.send(GeneratedModel { ts: t, mesh: t as u64 }).unwrap();
    }
    // Frame 2: frames 0 and 1 are superseded (one past entry is kept and
    // immediately consumed), the rest stays.
    let r = g.advance(2);
    let y = r.yielded.expect("a ready mesh at or before frame 2");
    assert_eq!(y.ts, 2);
    assert_eq!(g.job_timestamps(), vec![3, 4, 5, 6]);
}

// Teardown decision: shutdown reports whether the pool must be drained and
// empties the queue either way.
#[test]
fn shutdown_reports_in_flight() {
    let (_tx, mut g) = make(4, 4);
    g.advance(0);
    assert_eq!(g.in_flight_jobs(), 4);
    let must_drain = g.shutdown();
    assert!(must_drain);
    assert_eq!(g.queue_size(), 0);
    assert_eq!(g.in_flight_jobs(), 0);

    let (tx2, mut g2) = make(1, 4);
    g2.advance(0);
    tx2.send(GeneratedModel { ts: 0, mesh: 0 }).unwrap();
    g2.advance(0);
    // The only job resolved and was consumed; a fresh pending job for frame
    // 1 was submitted, so draining is still required.
    assert_eq!(g2.in_flight_jobs(), 1);
    assert!(g2.shutdown());
}

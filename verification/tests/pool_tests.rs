use lookahead::scheduler::{GeneratedModel, ModelGenerator};

// Progress: driving the same frame while the pool works the requests off
// eventually yields a mesh for a frame at or before the current one.
#[test]
fn progress_with_worker_pool() {
    let pool = threadpool::ThreadPool::new(4);
    let (tx, rx) = std::sync::mpsc::channel();
    let mut g: ModelGenerator<u64> = ModelGenerator::new(rx, 4, 10);

    let mut yielded = None;
    let mut rounds = 0;
    while yielded.is_none() && rounds < 100 {
        let r = g.advance(5);
        for req in r.requests {
            let tx = tx.clone();
            pool.execute(move || {
                tx.send(GeneratedModel { ts: req.ts, mesh: req.ts as u64 * 2 }).unwrap();
            });
        }
        yielded = r.yielded;
        pool.join();
        rounds += 1;
    }
    let y = yielded.expect("pool made progress, a mesh is due");
    assert!(y.ts <= 5);
    assert_eq!(y.mesh, y.ts as u64 * 2);
}

// Teardown safety: shutdown demands a drain while jobs are in flight, and
// after the drain every submitted worker callback has completed.
#[test]
fn teardown_waits_for_in_flight_jobs() {
    let pool = threadpool::ThreadPool::new(2);
    let (tx, rx) = std::sync::mpsc::channel();
    let (done_tx, done_rx) = std::sync::mpsc::channel();
    let mut g: ModelGenerator<u64> = ModelGenerator::new(rx, 4, 3);

    let r = g.advance(0);
    let submitted = r.requests.len();
    assert_eq!(submitted, 4);
    for req in r.requests {
        let tx = tx.clone();
        let done = done_tx.clone();
        pool.execute(move || {
            tx.send(GeneratedModel { ts: req.ts, mesh: 1 }).unwrap();
            done.send(req.ts).unwrap();
        });
    }

    let must_drain = g.shutdown();
    assert!(must_drain);
    if must_drain {
        pool.join();
    }
    drop(done_tx);
    let completed: Vec<u32> = done_rx.try_iter().collect();
    assert_eq!(completed.len(), submitted);
}

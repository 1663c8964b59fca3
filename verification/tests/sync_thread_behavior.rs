use shrink_pool::ShrinkPool;
use shrink_pool::SyncThread;

#[test]
fn sync_thread_strict_order() {
    // Each task appends its index to a shared log; with the single-thread
    // facade the log comes out exactly in submission order.
    let mut thread: SyncThread<usize> = SyncThread::new();
    for i in 0..10usize {
        let spawn = thread.execute(i);
        assert_eq!(spawn, i == 0);
    }
    let mut log: Vec<usize> = Vec::new();
    loop {
        match thread.claim() {
            Some(i) => log.push(i),
            None => break,
        }
    }
    assert_eq!(log, (0..10).collect::<Vec<usize>>());
}

#[test]
fn sync_thread_shrinks_and_resumes() {
    let mut thread: SyncThread<u32> = SyncThread::new();
    assert!(thread.execute(1));
    assert_eq!(thread.claim(), Some(1));
    assert_eq!(thread.claim(), None);
    // The single worker has retired; the next submission spawns a new one.
    assert!(thread.execute(2));
    assert_eq!(thread.claim(), Some(2));
    assert_eq!(thread.claim(), None);
}

#[test]
fn sync_thread_self_healing_order() {
    // Tasks that terminate abnormally are discarded, but the surviving
    // tasks still complete in submission order.
    let mut thread: SyncThread<usize> = SyncThread::new();
    for i in 0..50usize {
        thread.execute(i);
    }
    let mut successes: Vec<usize> = Vec::new();
    loop {
        match thread.claim() {
            Some(i) => {
                if i % 5 != 0 {
                    successes.push(i);
                }
            }
            None => break,
        }
    }
    assert_eq!(successes.len(), 40);
    let mut sorted = successes.clone();
    sorted.sort();
    assert_eq!(successes, sorted);
}

#[test]
fn pool_of_size_one_matches_sync_thread() {
    let mut pool: ShrinkPool<u32> = ShrinkPool::new(1);
    let mut thread: SyncThread<u32> = SyncThread::new();
    for i in 0..6u32 {
        assert_eq!(pool.execute(i), thread.execute(i));
    }
    for _ in 0..7 {
        assert_eq!(pool.claim(), thread.claim());
    }
}

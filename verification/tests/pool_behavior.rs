use shrink_pool::ShrinkPool;

#[test]
fn fifo_claim_order() {
    let mut pool: ShrinkPool<u32> = ShrinkPool::new(2);
    let mut spawns: Vec<bool> = Vec::new();
    for i in 0..5u32 {
        spawns.push(pool.execute(i));
    }
    assert_eq!(spawns, vec![true, true, false, false, false]);
    // Two workers hold slots; they claim strictly in submission order.
    for i in 0..5u32 {
        assert_eq!(pool.claim(), Some(i));
    }
    // Both workers then find the queue empty and retire.
    assert_eq!(pool.claim(), None);
    assert_eq!(pool.claim(), None);
}

#[test]
fn spawn_bounded_by_pool_size() {
    let mut pool: ShrinkPool<u32> = ShrinkPool::new(3);
    let mut spawned: usize = 0;
    for i in 0..10u32 {
        if pool.execute(i) {
            spawned += 1;
        }
    }
    assert_eq!(spawned, 3);
}

#[test]
fn shrink_to_zero_then_resume() {
    let mut pool: ShrinkPool<u32> = ShrinkPool::new(2);
    assert!(pool.execute(0));
    assert!(pool.execute(1));
    assert!(!pool.execute(2));
    // First batch: both workers drain the queue, then retire.
    assert_eq!(pool.claim(), Some(0));
    assert_eq!(pool.claim(), Some(1));
    assert_eq!(pool.claim(), Some(2));
    assert_eq!(pool.claim(), None);
    assert_eq!(pool.claim(), None);
    // The pool has fully shrunk: the next submission spawns on demand again.
    assert!(pool.execute(7));
    assert_eq!(pool.claim(), Some(7));
    assert_eq!(pool.claim(), None);
}

#[test]
fn exactly_once_hundred_tasks() {
    // One hundred tasks, each incrementing a shared counter once when it
    // runs: the counter ends at exactly one hundred, and no task is ever
    // handed out twice.
    let mut pool: ShrinkPool<usize> = ShrinkPool::new(4);
    let mut spawned: usize = 0;
    for i in 0..100usize {
        if pool.execute(i) {
            spawned += 1;
        }
    }
    assert_eq!(spawned, 4);
    let mut counter: usize = 0;
    let mut seen = [false; 100];
    let mut live = spawned;
    while live > 0 {
        match pool.claim() {
            Some(i) => {
                assert!(!seen[i]);
                seen[i] = true;
                counter += 1;
            }
            None => live -= 1,
        }
    }
    assert_eq!(counter, 100);
    assert!(seen.iter().all(|s| *s));
}

#[test]
fn self_healing_forty_of_fifty() {
    // Fifty tasks on a pool of size eight; every task whose index is a
    // multiple of five terminates abnormally. The failure guard spawns a
    // replacement worker into the same slot, so the pool itself is not
    // touched on the abnormal path, and the forty other tasks all succeed.
    let mut pool: ShrinkPool<usize> = ShrinkPool::new(8);
    let mut spawned: usize = 0;
    for i in 0..50usize {
        if pool.execute(i) {
            spawned += 1;
        }
    }
    assert_eq!(spawned, 8);
    let mut successes: Vec<usize> = Vec::new();
    let mut live = spawned;
    while live > 0 {
        match pool.claim() {
            Some(i) => {
                if i % 5 != 0 {
                    successes.push(i);
                }
                // A task with i % 5 == 0 panics mid-run; the replacement
                // worker reuses the slot, so `live` does not change.
            }
            None => live -= 1,
        }
    }
    assert_eq!(successes.len(), 40);
    assert!(successes.iter().all(|i| i % 5 != 0));
}

#[test]
fn interleaved_submit_and_claim() {
    let mut pool: ShrinkPool<u32> = ShrinkPool::new(1);
    assert!(pool.execute(0));
    assert!(!pool.execute(1));
    assert_eq!(pool.claim(), Some(0));
    assert!(!pool.execute(2));
    assert_eq!(pool.claim(), Some(1));
    assert_eq!(pool.claim(), Some(2));
    assert_eq!(pool.claim(), None);
}

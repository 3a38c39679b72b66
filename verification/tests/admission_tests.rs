use httpd_core::admission::ThreadPool;

#[test]
fn admits_up_to_capacity_and_drops_the_rest() {
    let mut pool = ThreadPool::new(5);
    let mut admitted: usize = 0;
    let mut dropped: usize = 0;
    for h in 0..6u64 {
        let finished = vec![false; pool.current_connections.len()];
        if pool.execute(h, &finished) {
            admitted += 1;
        } else {
            dropped += 1;
        }
    }
    assert_eq!(admitted, 5);
    assert_eq!(dropped, 1);
    assert_eq!(pool.current_connections.len(), 5);
}

#[test]
fn finished_connections_free_their_slots() {
    let mut pool = ThreadPool::new(2);
    assert!(pool.execute(1, &vec![]));
    assert!(pool.execute(2, &vec![false]));
    assert!(!pool.execute(3, &vec![false, false]));
    // connection 1 finishes; the sweep frees its slot
    assert!(pool.execute(4, &vec![true, false]));
    assert_eq!(pool.current_connections, vec![2, 4]);
}

#[test]
fn zero_capacity_admits_nothing() {
    let mut pool = ThreadPool::new(0);
    assert!(!pool.execute(7, &vec![]));
    assert!(pool.current_connections.is_empty());
}

#[test]
fn sweep_removes_all_finished_handles() {
    let mut pool = ThreadPool::new(3);
    pool.execute(1, &vec![]);
    pool.execute(2, &vec![false]);
    pool.execute(3, &vec![false, false]);
    assert!(pool.execute(4, &vec![true, true, true]));
    assert_eq!(pool.current_connections, vec![4]);
}

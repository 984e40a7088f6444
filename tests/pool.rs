use ssh_pool::pool::Pool;

fn open(pool: &mut Pool<String, u32>, id: usize, session: &str, task: u32) {
    assert!(pool.insert(id, session.to_string()).is_ok());
    assert_eq!(pool.restart(id, task), Ok(None));
}

#[test]
fn second_open_with_same_id_is_refused() {
    let mut pool: Pool<String, u32> = Pool::new();
    open(&mut pool, 7, "first", 1);
    let refused = pool.insert(7, "second".to_string());
    assert_eq!(refused, Err("second".to_string()));
    assert_eq!(pool.len(), 1);
    assert_eq!(pool.get(7), Some(&"first".to_string()));
    let entry = pool.remove(7).unwrap();
    assert_eq!(entry.poller, Some(1));
    assert!(pool.remove(7).is_none());
}

#[test]
fn close_hands_back_the_poller_and_forgets_the_id() {
    let mut pool: Pool<String, u32> = Pool::new();
    open(&mut pool, 1, "a", 10);
    open(&mut pool, 2, "b", 20);
    let entry = pool.remove(1).unwrap();
    assert_eq!((entry.id, entry.session.as_str(), entry.poller), (1, "a", Some(10)));
    assert!(!pool.contains(1));
    assert!(pool.get(1).is_none());
    assert_eq!(pool.restart(1, 11), Err(11));
    assert!(pool.contains(2));
    assert_eq!(pool.position(2), Some(0));
}

#[test]
fn close_of_unknown_id_changes_nothing() {
    let mut pool: Pool<String, u32> = Pool::new();
    open(&mut pool, 3, "c", 30);
    assert!(pool.remove(4).is_none());
    assert_eq!(pool.len(), 1);
}

#[test]
fn close_all_on_empty_pool() {
    let mut pool: Pool<String, u32> = Pool::new();
    let all = pool.drain();
    assert!(all.is_empty());
    assert_eq!(pool.len(), 0);
}

#[test]
fn close_all_on_one_session() {
    let mut pool: Pool<String, u32> = Pool::new();
    open(&mut pool, 5, "e", 50);
    let all = pool.drain();
    assert_eq!(all.len(), 1);
    assert_eq!(all[0].poller, Some(50));
    assert_eq!(pool.len(), 0);
    assert!(!pool.contains(5));
}

#[test]
fn close_all_on_many_sessions_returns_every_poller() {
    let mut pool: Pool<String, u32> = Pool::new();
    for id in 0..4usize {
        open(&mut pool, id, "s", 100 + id as u32);
    }
    assert!(pool.insert(9, "no poller".to_string()).is_ok());
    let all = pool.drain();
    let ids: Vec<usize> = all.iter().map(|e| e.id).collect();
    let pollers: Vec<Option<u32>> = all.iter().map(|e| e.poller).collect();
    assert_eq!(ids, vec![0, 1, 2, 3, 9]);
    assert_eq!(pollers, vec![Some(100), Some(101), Some(102), Some(103), None]);
    assert_eq!(pool.len(), 0);
}

#[test]
fn restart_replaces_the_single_poller() {
    let mut pool: Pool<String, u32> = Pool::new();
    open(&mut pool, 8, "h", 1);
    assert_eq!(pool.restart(8, 2), Ok(Some(1)));
    assert_eq!(pool.restart(8, 3), Ok(Some(2)));
    assert_eq!(pool.len(), 1);
    let all = pool.drain();
    assert_eq!(all.len(), 1);
    assert_eq!(all[0].poller, Some(3));
    assert_eq!(all[0].session, "h");
}

#[test]
fn restart_on_unknown_id_returns_the_task() {
    let mut pool: Pool<String, u32> = Pool::new();
    assert_eq!(pool.restart(1, 42), Err(42));
    assert_eq!(pool.len(), 0);
}

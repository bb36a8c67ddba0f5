use gas_network::commands::SyncPair;
use std::sync::{Arc, Condvar, Mutex};
use std::time::Duration;

#[test]
fn test_sync_pair_creation() {
    let pair: SyncPair = Arc::new((Mutex::new((false, None)), Condvar::new()));
    let (lock, _) = &*pair;
    let data = lock.lock().unwrap();
    assert_eq!(*data, (false, None));
}

#[test]
fn test_sync_pair_update_state() {
    let pair: SyncPair = Arc::new((Mutex::new((false, None)), Condvar::new()));

    {
        let (lock, _) = &*pair;
        let mut data = lock.lock().unwrap();
        *data = (true, Some(12345));
    }

    let (lock, _) = &*pair;
    let data = lock.lock().unwrap();
    assert_eq!(*data, (true, Some(12345)));
}

#[test]
fn test_sync_pair_wait_with_timeout() {
    let pair: SyncPair = Arc::new((Mutex::new((false, None)), Condvar::new()));

    let (lock, cvar) = &*pair;
    let data = lock.lock().unwrap();

    // Wait con timeout corto (no debería cambiar nada)
    let (new_data, timeout_result) = cvar
        .wait_timeout(data, Duration::from_millis(10))
        .unwrap();

    assert!(timeout_result.timed_out());
    assert_eq!(*new_data, (false, None));
}

use std::sync::Mutex;

use local_quota_widget::lock::recover_lock;

#[test]
fn a_lock_gives_what_it_holds() {
    let mutex = Mutex::new(5);
    *recover_lock(&mutex) += 2;
    assert_eq!(*recover_lock(&mutex), 7);
}

use droute::pool::AcquireAction;
use droute::pool::ClientPool;

#[test]
fn pool_creates_up_to_cap_then_waits() {
    let mut p = ClientPool::new(2);
    assert!(matches!(p.acquire_step(), AcquireAction::Create(0)));
    assert!(matches!(p.acquire_step(), AcquireAction::Create(1)));
    assert!(matches!(p.acquire_step(), AcquireAction::Wait));
}

#[test]
fn healthy_release_is_reused() {
    let mut p = ClientPool::new(1);
    assert!(matches!(p.acquire_step(), AcquireAction::Create(0)));
    p.release(0, true);
    assert!(matches!(p.acquire_step(), AcquireAction::Reuse(0)));
}

#[test]
fn unhealthy_release_frees_the_slot() {
    let mut p = ClientPool::new(1);
    assert!(matches!(p.acquire_step(), AcquireAction::Create(0)));
    p.release(0, false);
    // The discarded handle's slot is free again: a fresh id is created.
    assert!(matches!(p.acquire_step(), AcquireAction::Create(1)));
}

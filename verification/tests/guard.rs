//! The drop guard.

use blue::defer::defer;
use std::cell::Cell;

#[test]
fn deferred_action_runs_at_scope_exit() {
    let flag = Cell::new(false);
    {
        let _guard = defer(|| flag.set(true));
        assert!(!flag.get());
    }
    assert!(flag.get());
}

#[test]
fn deferred_actions_run_in_reverse_order() {
    let log = Cell::new(0u32);
    {
        let _outer = defer(|| log.set(log.get() * 10 + 2));
        let _inner = defer(|| log.set(log.get() * 10 + 1));
    }
    assert_eq!(log.get(), 12);
}

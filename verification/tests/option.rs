use rimecraft_core::option::SuppliableIntCallbacks;

#[test]
fn suppliable_bounds_are_asked_for() {
    let callbacks = SuppliableIntCallbacks::new(|| -5, || 12);
    assert_eq!(callbacks.min_inclusive(), -5);
    assert_eq!(callbacks.max_inclusive(), 12);
    assert!(callbacks.is_cycling());
}

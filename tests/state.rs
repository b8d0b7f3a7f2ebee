use minihttp::state::{enter, StateSlot};

#[test]
fn enter_shows_value_then_restores_empty() {
    let slot: StateSlot<u32> = StateSlot::new();
    assert_eq!(slot.inject(), None);
    let (slot, seen) = enter(slot, 5, |s: StateSlot<u32>| {
        let v = s.inject().copied();
        (s, v)
    });
    assert_eq!(seen, Some(5));
    assert_eq!(slot.inject(), None);
}

#[test]
fn enter_restores_outer_value() {
    let mut slot: StateSlot<&str> = StateSlot::new();
    slot.replace(Some("outer"));
    let (slot, seen) = enter(slot, "inner", |s: StateSlot<&str>| {
        let v = s.inject().copied();
        (s, v)
    });
    assert_eq!(seen, Some("inner"));
    assert_eq!(slot.inject(), Some(&"outer"));
}

#[test]
fn nested_scope_shadows_then_restores() {
    let slot: StateSlot<u8> = StateSlot::new();
    let (slot, seen) = enter(slot, 1, |s: StateSlot<u8>| {
        let (s, inner) = enter(s, 2, |t: StateSlot<u8>| {
            let v = t.inject().copied();
            (t, v)
        });
        let after = s.inject().copied();
        (s, (inner, after))
    });
    assert_eq!(seen, (Some(2), Some(1)));
    assert_eq!(slot.inject(), None);
}

#[test]
fn enter_restores_after_error_result() {
    let mut slot: StateSlot<u8> = StateSlot::new();
    slot.replace(Some(1));
    let (slot, r) = enter(slot, 2, |s: StateSlot<u8>| {
        let failed: Result<(), String> = Err("failed".to_string());
        (s, failed)
    });
    assert!(r.is_err());
    assert_eq!(slot.inject(), Some(&1));
}

#[test]
fn enter_restores_even_if_continuation_clears_slot() {
    let mut slot: StateSlot<u8> = StateSlot::new();
    slot.replace(Some(7));
    let (slot, ()) = enter(slot, 8, |mut s: StateSlot<u8>| {
        s.replace(None);
        (s, ())
    });
    assert_eq!(slot.inject(), Some(&7));
}

#[test]
fn replace_hands_back_previous() {
    let mut slot: StateSlot<u8> = StateSlot::new();
    assert_eq!(slot.replace(Some(3)), None);
    assert_eq!(slot.replace(None), Some(3));
    assert_eq!(slot.inject(), None);
}

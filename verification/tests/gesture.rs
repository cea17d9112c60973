use nihongo_run::gesture::DashGesture;

#[test]
fn touch_steers_until_lifted() {
    let mut g = DashGesture::new();
    assert!(!g.active);
    g.press_touch(7);
    assert!(g.active && g.tracks(7) && !g.tracks(8));
    g.release_touch();
    assert!(!g.active);
    assert_eq!(g.touch_id, None);
}

#[test]
fn fast_upward_move_starts_one_dash() {
    let mut g = DashGesture::new();
    g.press_mouse();
    assert!(!g.try_dash(false));
    assert!(g.try_dash(true));
    assert!(g.dash_triggered);
    // still dashing: no second dash from the same gesture
    assert!(!g.settle(true));
    assert!(!g.try_dash(true));
    // dash over while held: may dash again
    assert!(!g.settle(false));
    assert!(g.try_dash(true));
}

#[test]
fn lifting_during_a_dash_snaps_to_centre_once() {
    let mut g = DashGesture::new();
    g.press_mouse();
    assert!(g.try_dash(true));
    g.release_mouse();
    assert!(g.flick_dash && !g.dash_triggered && !g.active);
    assert!(!g.settle(true));
    assert!(g.settle(false));
    assert!(!g.settle(false));
}

#[test]
fn no_dash_without_a_pointer_down() {
    let mut g = DashGesture::new();
    assert!(!g.try_dash(true));
    g.press_mouse();
    g.release_mouse();
    assert!(!g.flick_dash);
    assert!(!g.settle(false));
}

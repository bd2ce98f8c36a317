use hydock::config::Toggle;
use hydock::visibility::{PointerEvent, Surfaces, Visibility, VisibilityController};

#[test]
fn new_dock_is_shown() {
    let c = VisibilityController::new();
    assert_eq!(c.state, Visibility::Shown);
    assert!(!c.auto_hide);
    assert_eq!(
        c.surfaces(),
        Surfaces { dock_visible: true, trigger_visible: false, hover_listeners: false }
    );
}

#[test]
fn without_auto_hide_always_shown() {
    let events = [PointerEvent::LeaveDock, PointerEvent::EnterTrigger];
    let c = VisibilityController::new().tick(Toggle::Off);
    for a in events {
        assert_eq!(c.pointer(a).state, Visibility::Shown);
        for b in events {
            assert_eq!(c.pointer(a).pointer(b).state, Visibility::Shown);
            for d in events {
                assert_eq!(c.pointers(&vec![a, b, d]).state, Visibility::Shown);
            }
        }
    }
    assert_eq!(c.pointers(&vec![PointerEvent::LeaveDock; 17]), c);
}

#[test]
fn auto_hide_leave_hides_and_enter_shows() {
    let c = VisibilityController::new().tick(Toggle::On);
    assert_eq!(c.state, Visibility::Shown);
    let left = c.pointer(PointerEvent::LeaveDock);
    assert_eq!(left.state, Visibility::Hidden);
    let back = left.pointer(PointerEvent::EnterTrigger);
    assert_eq!(back.state, Visibility::Shown);
}

#[test]
fn auto_hide_last_event_decides() {
    let c = VisibilityController::new().tick(Toggle::On);
    let hidden = c.pointers(&vec![
        PointerEvent::EnterTrigger,
        PointerEvent::LeaveDock,
        PointerEvent::EnterTrigger,
        PointerEvent::LeaveDock,
    ]);
    assert_eq!(hidden.state, Visibility::Hidden);
    let shown = hidden.pointers(&vec![PointerEvent::LeaveDock, PointerEvent::EnterTrigger]);
    assert_eq!(shown.state, Visibility::Shown);
    assert_eq!(c.pointers(&Vec::new()), c);
}

#[test]
fn tick_with_auto_hide_keeps_a_hidden_dock_hidden() {
    let hidden = VisibilityController::new().tick(Toggle::On).pointer(PointerEvent::LeaveDock);
    let after = hidden.tick(Toggle::On);
    assert_eq!(after.state, Visibility::Hidden);
    assert_eq!(
        after.surfaces(),
        Surfaces { dock_visible: false, trigger_visible: true, hover_listeners: true }
    );
}

#[test]
fn tick_without_auto_hide_shows_a_hidden_dock() {
    let hidden = VisibilityController::new().tick(Toggle::On).pointer(PointerEvent::LeaveDock);
    let after = hidden.tick(Toggle::Off);
    assert_eq!(after, VisibilityController { state: Visibility::Shown, auto_hide: false });
    assert_eq!(after.pointer(PointerEvent::LeaveDock).state, Visibility::Shown);
    assert_eq!(
        after.surfaces(),
        Surfaces { dock_visible: true, trigger_visible: false, hover_listeners: false }
    );
}

#[test]
fn pointer_events_before_the_first_tick_change_nothing() {
    let c = VisibilityController::new();
    assert_eq!(c.pointer(PointerEvent::LeaveDock), c);
    assert_eq!(c.pointer(PointerEvent::EnterTrigger), c);
}

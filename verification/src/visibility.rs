//! Whether the dock is on screen.
//!
//! With auto-hide the dock hides when the pointer leaves it and comes back
//! when the pointer enters the trigger strip along the same edge. Without
//! auto-hide the dock is always shown, and pointer events change nothing.

use crate::config::Toggle;
use vstd::prelude::*;

verus! {

/// Whether the dock surface is on screen.
#[derive(Clone, Copy, Debug, PartialEq, Eq, Structural)]
pub enum Visibility {
    Shown,
    Hidden,
}

/// What the pointer did.
#[derive(Clone, Copy, Debug, PartialEq, Eq, Structural)]
pub enum PointerEvent {
    /// The pointer left the dock.
    LeaveDock,
    /// The pointer entered the trigger strip.
    EnterTrigger,
}

/// The state of the dock surface and the policy that was last applied to
/// it. While `auto_hide` is off the state is `Shown`: see [`Self::wf`].
#[derive(Clone, Copy, Debug, PartialEq, Eq, Structural)]
pub struct VisibilityController {
    pub state: Visibility,
    pub auto_hide: bool,
}

/// What the two surfaces have to look like for a given controller.
#[derive(Clone, Copy, Debug, PartialEq, Eq, Structural)]
pub struct Surfaces {
    /// The dock is on screen.
    pub dock_visible: bool,
    /// The trigger strip is on screen.
    pub trigger_visible: bool,
    /// The dock and the trigger strip report pointer events.
    pub hover_listeners: bool,
}

impl VisibilityController {
    /// No hidden dock without auto-hide.
    pub open spec fn wf(self) -> bool {
        !self.auto_hide ==> self.state == Visibility::Shown
    }

    /// The controller of a dock that has just been built: shown, auto-hide
    /// not yet applied.
    pub open spec fn initial() -> VisibilityController {
        VisibilityController { state: Visibility::Shown, auto_hide: false }
    }

    /// The controller after a tick that found auto-hide on or off. Turning
    /// it off shows the dock; turning it on or leaving it on keeps the state.
    pub open spec fn after_tick(self, auto_hide: bool) -> VisibilityController {
        VisibilityController {
            state: if auto_hide {
                self.state
            } else {
                Visibility::Shown
            },
            auto_hide,
        }
    }

    /// The controller after a pointer event.
    pub open spec fn after_event(self, event: PointerEvent) -> VisibilityController {
        if self.auto_hide {
            VisibilityController {
                state: match event {
                    PointerEvent::LeaveDock => Visibility::Hidden,
                    PointerEvent::EnterTrigger => Visibility::Shown,
                },
                auto_hide: true,
            }
        } else {
            self
        }
    }

    /// The controller after a sequence of pointer events, first to last.
    pub open spec fn after_events(self, events: Seq<PointerEvent>) -> VisibilityController
        decreases events.len(),
    {
        if events.len() == 0 {
            self
        } else {
            self.after_events(events.drop_last()).after_event(events.last())
        }
    }

    /// What the surfaces look like under this controller.
    pub open spec fn surfaces_model(self) -> Surfaces {
        Surfaces {
            dock_visible: self.state == Visibility::Shown,
            trigger_visible: self.auto_hide,
            hover_listeners: self.auto_hide,
        }
    }

    /// The controller of a dock that has just been built.
    pub fn new() -> (r: VisibilityController)
        ensures
            r == VisibilityController::initial(),
            r.wf(),
    {
        VisibilityController { state: Visibility::Shown, auto_hide: false }
    }

    /// Applies the auto-hide setting that a tick found.
    pub fn tick(self, auto_hide: Toggle) -> (r: VisibilityController)
        ensures
            r == self.after_tick(auto_hide == Toggle::On),
            r.wf(),
    {
        if auto_hide.is_on() {
            let on = VisibilityController { state: self.state, auto_hide: true };
            on
        } else {
            VisibilityController { state: Visibility::Shown, auto_hide: false }
        }
    }

    /// Takes a pointer event.
    pub fn pointer(self, event: PointerEvent) -> (r: VisibilityController)
        ensures
            r == self.after_event(event),
            self.wf() ==> r.wf(),
    {
        if self.auto_hide {
            let state = match event {
                PointerEvent::LeaveDock => Visibility::Hidden,
                PointerEvent::EnterTrigger => Visibility::Shown,
            };
            VisibilityController { state, auto_hide: true }
        } else {
            self
        }
    }

    /// Takes pointer events, first to last.
    pub fn pointers(self, events: &Vec<PointerEvent>) -> (r: VisibilityController)
        ensures
            r == self.after_events(events@),
            self.wf() ==> r.wf(),
    {
        let mut now = self;
        let mut i: usize = 0;
        assert(events@.take(0) =~= Seq::empty());
        while i < events.len()
            invariant
                i <= events.len(),
                now == self.after_events(events@.take(i as int)),
                self.wf() ==> now.wf(),
            decreases events.len() - i,
        {
            assert(events@.take(i + 1).drop_last() =~= events@.take(i as int));
            now = now.pointer(events[i]);
            i += 1;
        }
        assert(events@.take(i as int) =~= events@);
        now
    }

    /// What the surfaces have to look like now.
    pub fn surfaces(self) -> (r: Surfaces)
        ensures
            r == self.surfaces_model(),
    {
        Surfaces {
            dock_visible: match self.state {
                Visibility::Shown => true,
                Visibility::Hidden => false,
            },
            trigger_visible: self.auto_hide,
            hover_listeners: self.auto_hide,
        }
    }
}

/// Without auto-hide the dock is shown after any sequence of pointer events.
pub proof fn lemma_shown_without_auto_hide(c: VisibilityController, events: Seq<PointerEvent>)
    requires
        c.wf(),
        !c.auto_hide,
    ensures
        c.after_events(events) == c,
        c.after_events(events).state == Visibility::Shown,
    decreases events.len(),
{
    if events.len() > 0 {
        lemma_shown_without_auto_hide(c, events.drop_last());
    }
}

/// Once a tick has turned auto-hide off, the dock is shown whatever it was
/// before and whatever the pointer does afterwards.
pub proof fn lemma_tick_off_shows(c: VisibilityController, events: Seq<PointerEvent>)
    ensures
        c.after_tick(false).after_events(events).state == Visibility::Shown,
{
    lemma_shown_without_auto_hide(c.after_tick(false), events);
}

/// With auto-hide a dock that the pointer has left is hidden, and it is
/// shown again once the pointer enters the trigger strip.
pub proof fn lemma_leave_hides_enter_shows(c: VisibilityController)
    requires
        c.auto_hide,
    ensures
        c.after_event(PointerEvent::LeaveDock).state == Visibility::Hidden,
        c.after_event(PointerEvent::LeaveDock).after_event(PointerEvent::EnterTrigger).state
            == Visibility::Shown,
{
}

/// With auto-hide the last pointer event decides.
pub proof fn lemma_last_event_decides(c: VisibilityController, events: Seq<PointerEvent>)
    requires
        c.auto_hide,
        events.len() > 0,
    ensures
        c.after_events(events).auto_hide,
        c.after_events(events).state == (match events.last() {
            PointerEvent::LeaveDock => Visibility::Hidden,
            PointerEvent::EnterTrigger => Visibility::Shown,
        }),
    decreases events.len(),
{
    if events.len() > 1 {
        lemma_last_event_decides(c, events.drop_last());
    } else {
        assert(c.after_events(events.drop_last()) == c);
    }
}

/// Every controller that ticks and pointer events lead to from a new one
/// is well formed.
pub proof fn lemma_steps_keep_wf(c: VisibilityController, auto_hide: bool, event: PointerEvent)
    ensures
        VisibilityController::initial().wf(),
        c.after_tick(auto_hide).wf(),
        c.wf() ==> c.after_event(event).wf(),
{
}

/// A tick keeps the state of a dock under auto-hide, so a hidden dock stays
/// hidden while the settings are read again.
pub proof fn lemma_tick_keeps_state(c: VisibilityController)
    ensures
        c.after_tick(true).state == c.state,
{
}

} // verus!

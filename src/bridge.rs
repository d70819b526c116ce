use vstd::prelude::*;
use crate::engine::{Engine, all_global_set};
use crate::registry::Entry;

verus! {

/// Poll period of the UI loop, in milliseconds: the longest a message from
/// the tray waits before it is handled.
pub const POLL_INTERVAL_MS: u64 = 100;

/// An intent sent from the tray thread to the UI thread.
#[derive(Debug, Clone, Copy, PartialEq, Eq, Structural)]
pub enum AppMsg {
    Quit,
    ToggleManager,
    ToggleHideAll,
    RefreshPresets,
}

/// What the UI loop must do after draining the messages of a tick.
#[derive(Debug, Clone, Copy, PartialEq, Eq, Structural)]
pub enum UiAction {
    PresentManager,
    RefreshPresetList,
    Quit,
}

/// The UI action a message asks for; hiding is done by the engine itself.
pub open spec fn action_of(m: AppMsg) -> Option<UiAction> {
    match m {
        AppMsg::Quit => Some(UiAction::Quit),
        AppMsg::ToggleManager => Some(UiAction::PresentManager),
        AppMsg::ToggleHideAll => None,
        AppMsg::RefreshPresets => Some(UiAction::RefreshPresetList),
    }
}

/// The UI actions of `msgs`, in the order the messages came.
pub open spec fn actions_of(msgs: Seq<AppMsg>) -> Seq<UiAction>
    decreases msgs.len(),
{
    if msgs.len() == 0 {
        Seq::empty()
    } else {
        match action_of(msgs.last()) {
            Some(a) => actions_of(msgs.drop_last()).push(a),
            None => actions_of(msgs.drop_last()),
        }
    }
}

/// The global hide flag after `msgs`, starting from `hidden`.
pub open spec fn hidden_after(hidden: bool, msgs: Seq<AppMsg>) -> bool
    decreases msgs.len(),
{
    if msgs.len() == 0 {
        hidden
    } else if msgs.last() == AppMsg::ToggleHideAll {
        !hidden_after(hidden, msgs.drop_last())
    } else {
        hidden_after(hidden, msgs.drop_last())
    }
}

/// The live overlays after `msgs`, starting from `es` with the global hide
/// flag at `hidden`.
pub open spec fn entries_after(es: Seq<Entry>, hidden: bool, msgs: Seq<AppMsg>) -> Seq<Entry>
    decreases msgs.len(),
{
    if msgs.len() == 0 {
        es
    } else if msgs.last() == AppMsg::ToggleHideAll {
        all_global_set(
            entries_after(es, hidden, msgs.drop_last()),
            !hidden_after(hidden, msgs.drop_last()),
        )
    } else {
        entries_after(es, hidden, msgs.drop_last())
    }
}

fn action_for(m: AppMsg) -> (r: Option<UiAction>)
    ensures
        r == action_of(m),
{
    match m {
        AppMsg::Quit => Some(UiAction::Quit),
        AppMsg::ToggleManager => Some(UiAction::PresentManager),
        AppMsg::ToggleHideAll => None,
        AppMsg::RefreshPresets => Some(UiAction::RefreshPresetList),
    }
}

impl Engine {
    /// Handles the messages drained in one tick, first come first served:
    /// toggles the global hide for each `ToggleHideAll` and returns the UI
    /// actions of the others in their order.
    pub fn dispatch(&mut self, msgs: &Vec<AppMsg>) -> (r: Vec<UiAction>)
        requires
            old(self).wf(),
        ensures
            final(self).wf(),
            r@ == actions_of(msgs@),
            final(self).global_hide == hidden_after(old(self).global_hide, msgs@),
            final(self).registry.entries@ == entries_after(
                old(self).registry.entries@,
                old(self).global_hide,
                msgs@,
            ),
            final(self).presets == old(self).presets,
            final(self).pool == old(self).pool,
            final(self).next_handle == old(self).next_handle,
            final(self).next_surface == old(self).next_surface,
    {
        let ghost before = *self;
        let mut actions: Vec<UiAction> = Vec::new();
        let mut i: usize = 0;
        while i < msgs.len()
            invariant
                i <= msgs@.len(),
                self.wf(),
                actions@ == actions_of(msgs@.subrange(0, i as int)),
                self.global_hide == hidden_after(before.global_hide, msgs@.subrange(0, i as int)),
                self.registry.entries@ == entries_after(
                    before.registry.entries@,
                    before.global_hide,
                    msgs@.subrange(0, i as int),
                ),
                self.presets == before.presets,
                self.pool == before.pool,
                self.next_handle == before.next_handle,
                self.next_surface == before.next_surface,
            decreases msgs@.len() - i,
        {
            proof {
                assert(msgs@.subrange(0, i + 1).drop_last() =~= msgs@.subrange(0, i as int));
                assert(msgs@.subrange(0, i + 1).last() == msgs@[i as int]);
            }
            let m = msgs[i];
            if m == AppMsg::ToggleHideAll {
                self.toggle_hide_all();
            }
            match action_for(m) {
                Some(a) => actions.push(a),
                None => {},
            }
            i = i + 1;
        }
        proof {
            assert(msgs@.subrange(0, msgs@.len() as int) =~= msgs@);
        }
        actions
    }
}

/// Tray-side state: whether its "hide all" checkmark is on.
pub struct TrayState {
    pub is_hidden: bool,
}

impl TrayState {
    pub fn new() -> (r: TrayState)
        ensures
            !r.is_hidden,
    {
        TrayState { is_hidden: false }
    }

    /// The "hide all" item was activated: flips the checkmark and returns
    /// the message to send.
    pub fn activate_hide_all(&mut self) -> (r: AppMsg)
        ensures
            final(self).is_hidden == !old(self).is_hidden,
            r == AppMsg::ToggleHideAll,
    {
        self.is_hidden = !self.is_hidden;
        AppMsg::ToggleHideAll
    }

    /// The "open manager" item was activated.
    pub fn activate_open_manager(&self) -> (r: AppMsg)
        ensures
            r == AppMsg::ToggleManager,
    {
        AppMsg::ToggleManager
    }

    /// The "quit" item was activated.
    pub fn activate_quit(&self) -> (r: AppMsg)
        ensures
            r == AppMsg::Quit,
    {
        AppMsg::Quit
    }
}

} // verus!

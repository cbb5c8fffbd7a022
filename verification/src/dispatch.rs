//! Settling remove and restore actions: what to ask of the device, and what
//! a row becomes once the device has answered.

use vstd::prelude::*;
use crate::model::{Action, ActionError, InstallState, PackageRow, RowView};

verus! {

/// What the user did to a row.
#[derive(Clone, Copy, Debug, PartialEq, Eq, Structural)]
pub enum RowMessage {
    NoEvent,
    RemovePressed,
    RestorePressed,
}

/// The state of a package after the action has succeeded.
pub open spec fn target_state(action: Action) -> InstallState {
    match action {
        Action::Remove => InstallState::Uninstalled,
        Action::Restore => InstallState::Installed,
    }
}

/// What an action comes to, given the device's answer: the new state where
/// the device succeeded, its error where it did not.
pub open spec fn settled(action: Action, outcome: Result<(), ActionError>) -> Result<
    InstallState,
    ActionError,
> {
    match outcome {
        Ok(_) => Ok(target_state(action)),
        Err(e) => Err(e),
    }
}

/// The action that a message asks for, if any.
pub open spec fn action_of(message: RowMessage) -> Option<Action> {
    match message {
        RowMessage::NoEvent => None,
        RowMessage::RemovePressed => Some(Action::Remove),
        RowMessage::RestorePressed => Some(Action::Restore),
    }
}

/// The row with its state set.
pub open spec fn with_state(row: RowView, state: InstallState) -> RowView {
    RowView { name: row.name, state: state, description: row.description, uad_list: row.uad_list }
}

impl RowMessage {
    /// The action that the message asks for, if any.
    pub fn action(&self) -> (r: Option<Action>)
        ensures
            r == action_of(*self),
    {
        match self {
            RowMessage::NoEvent => None,
            RowMessage::RemovePressed => Some(Action::Remove),
            RowMessage::RestorePressed => Some(Action::Restore),
        }
    }
}

/// What an action comes to, given the device's answer.
pub fn settle(action: Action, outcome: Result<(), ActionError>) -> (r: Result<
    InstallState,
    ActionError,
>)
    ensures
        r == settled(action, outcome),
{
    match outcome {
        Ok(_) => match action {
            Action::Remove => Ok(InstallState::Uninstalled),
            Action::Restore => Ok(InstallState::Installed),
        },
        Err(e) => Err(e),
    }
}

/// Settles an action on `record` once the device has answered with
/// `outcome`: the new state after a success, the device's error after a
/// failure. The current state of the record plays no part, and the record
/// is not touched.
pub fn apply(record: &PackageRow, action: Action, outcome: Result<(), ActionError>) -> (r: Result<
    InstallState,
    ActionError,
>)
    ensures
        r == settled(action, outcome),
{
    settle(action, outcome)
}

impl PackageRow {
    /// Takes the device's answer to what `message` asked for into the row:
    /// after a success the row has the action's target state, after a
    /// failure it is as it was. A message that asks for nothing leaves the row
    /// alone and gives its state.
    pub fn update(&mut self, message: RowMessage, outcome: Result<(), ActionError>) -> (r: Result<
        InstallState,
        ActionError,
    >)
        ensures
            r == match action_of(message) {
                Some(action) => settled(action, outcome),
                None => Ok(old(self).state),
            },
            r.is_err() ==> *final(self) == *old(self),
            final(self).name == old(self).name,
            final(self).description == old(self).description,
            final(self).uad_list == old(self).uad_list,
            final(self).state == match r {
                Ok(state) => state,
                Err(_) => old(self).state,
            },
            final(self)@ == match r {
                Ok(state) => with_state(old(self)@, state),
                Err(_) => old(self)@,
            },
    {
        match message.action() {
            Some(action) => {
                let r = apply(self, action, outcome);
                match r {
                    Ok(state) => {
                        self.state = state;
                    },
                    Err(_) => {},
                }
                r
            },
            None => Ok(self.state),
        }
    }
}

} // verus!

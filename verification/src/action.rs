//! The actions that the join assigns to rows, and their codes.

use crate::error::MergeError;
use vstd::prelude::*;

verus! {

/// What to do with one joined row.
#[derive(Clone, Copy, Debug, PartialEq, Eq, Structural)]
pub enum Action {
    /// Leave the target as it is.
    Nothing,
    /// Replace the matched target row.
    UpdateAll,
    /// Add the source row.
    Insert,
    /// Remove the matched target row.
    Delete,
    /// Fail the merge.
    Fail,
}

/// The code that the join writes for each action.
#[derive(Clone, Copy, Debug, PartialEq, Eq, Structural)]
pub struct ActionCodes {
    pub nothing: u8,
    pub update_all: u8,
    pub insert: u8,
    pub delete: u8,
    pub fail: u8,
}

impl ActionCodes {
    /// No code stands for two actions.
    pub open spec fn distinct(self) -> bool {
        forall|a: Action, b: Action| #[trigger]
            self.code_of(a) == #[trigger] self.code_of(b) ==> a == b
    }

    /// The code of an action.
    pub open spec fn code_of(self, action: Action) -> u8 {
        match action {
            Action::Nothing => self.nothing,
            Action::UpdateAll => self.update_all,
            Action::Insert => self.insert,
            Action::Delete => self.delete,
            Action::Fail => self.fail,
        }
    }

    /// The action of a code, if it has one. Of two actions with one code, the
    /// one listed first.
    pub open spec fn action_of(self, code: u8) -> Option<Action> {
        if code == self.nothing {
            Some(Action::Nothing)
        } else if code == self.update_all {
            Some(Action::UpdateAll)
        } else if code == self.insert {
            Some(Action::Insert)
        } else if code == self.delete {
            Some(Action::Delete)
        } else if code == self.fail {
            Some(Action::Fail)
        } else {
            None
        }
    }

    /// Reads an action from its code; a code that no action has is an error.
    pub fn decode(&self, code: u8) -> (r: Result<Action, MergeError>)
        ensures
            match r {
                Ok(action) => self.action_of(code) == Some(action),
                Err(e) => self.action_of(code) is None && e == (MergeError::InvalidActionCode {
                    code,
                }),
            },
            code == self.nothing ==> r == Ok::<Action, MergeError>(Action::Nothing),
            code == self.update_all && code != self.nothing ==> r == Ok::<Action, MergeError>(
                Action::UpdateAll,
            ),
            code == self.insert && code != self.nothing && code != self.update_all ==> r == Ok::<
                Action,
                MergeError,
            >(Action::Insert),
            code == self.delete && code != self.nothing && code != self.update_all && code
                != self.insert ==> r == Ok::<Action, MergeError>(Action::Delete),
            code == self.fail && code != self.nothing && code != self.update_all && code
                != self.insert && code != self.delete ==> r == Ok::<Action, MergeError>(
                Action::Fail,
            ),
            code != self.nothing && code != self.update_all && code != self.insert && code
                != self.delete && code != self.fail ==> r == Err::<Action, MergeError>(
                MergeError::InvalidActionCode { code },
            ),
    {
        if code == self.nothing {
            Ok(Action::Nothing)
        } else if code == self.update_all {
            Ok(Action::UpdateAll)
        } else if code == self.insert {
            Ok(Action::Insert)
        } else if code == self.delete {
            Ok(Action::Delete)
        } else if code == self.fail {
            Ok(Action::Fail)
        } else {
            Err(MergeError::InvalidActionCode { code })
        }
    }

    /// The code of an action.
    pub fn encode(&self, action: Action) -> (r: u8)
        ensures
            r == self.code_of(action),
            action is Nothing ==> r == self.nothing,
            action is UpdateAll ==> r == self.update_all,
            action is Insert ==> r == self.insert,
            action is Delete ==> r == self.delete,
            action is Fail ==> r == self.fail,
    {
        match action {
            Action::Nothing => self.nothing,
            Action::UpdateAll => self.update_all,
            Action::Insert => self.insert,
            Action::Delete => self.delete,
            Action::Fail => self.fail,
        }
    }
}

/// With one code per action, reading a written action gives it back, and
/// every code that is read was written for the action that it is read as.
pub proof fn law_action_codes_round_trip(codes: ActionCodes, action: Action, code: u8)
    requires
        codes.distinct(),
    ensures
        codes.action_of(codes.code_of(action)) == Some(action),
        codes.action_of(code) matches Some(a) ==> codes.code_of(a) == code,
{
    assert forall|b: Action| codes.code_of(b) == codes.code_of(action) implies b == action by {}
    let read = codes.action_of(codes.code_of(action));
    assert(codes.code_of(read->0) == codes.code_of(action));
}

/// Each action is written with the code that is set for it. Where no code is set
/// for two actions, each code is read as the action that it is set for, and a code
/// that is set for none is not read.
pub proof fn law_each_action_has_its_code(codes: ActionCodes, code: u8)
    requires
        codes.nothing != codes.update_all,
        codes.nothing != codes.insert,
        codes.nothing != codes.delete,
        codes.nothing != codes.fail,
        codes.update_all != codes.insert,
        codes.update_all != codes.delete,
        codes.update_all != codes.fail,
        codes.insert != codes.delete,
        codes.insert != codes.fail,
        codes.delete != codes.fail,
    ensures
        codes.code_of(Action::Nothing) == codes.nothing,
        codes.code_of(Action::UpdateAll) == codes.update_all,
        codes.code_of(Action::Insert) == codes.insert,
        codes.code_of(Action::Delete) == codes.delete,
        codes.code_of(Action::Fail) == codes.fail,
        codes.action_of(code) == Some(Action::Nothing) <==> code == codes.nothing,
        codes.action_of(code) == Some(Action::UpdateAll) <==> code == codes.update_all,
        codes.action_of(code) == Some(Action::Insert) <==> code == codes.insert,
        codes.action_of(code) == Some(Action::Delete) <==> code == codes.delete,
        codes.action_of(code) == Some(Action::Fail) <==> code == codes.fail,
        codes.distinct(),
{
}

} // verus!

//! Spamming an emoji with a phone keyboard: type a few, copy them, paste
//! them over and over, and now and then select all and copy again. Each
//! action has a cost; the question is how to reach a target length most
//! cheaply.

use vstd::prelude::*;
use crate::machine::Machine;

verus! {

/// An action on the keyboard.
#[derive(Clone, Copy, Debug, PartialEq, Eq, Hash, Structural)]
pub enum SpamAction {
    /// Type a single emoji.
    One,
    /// Select all and copy.
    Copy,
    /// Paste the currently selected text.
    Paste,
}

/// What is on screen and in the paste buffer.
#[derive(Clone, Copy, Debug, PartialEq, Eq, Hash, Structural)]
pub struct SpamState {
    /// The number of emojis currently onscreen.
    pub len: usize,
    /// The cost of the actions taken so far.
    pub cost: usize,
    /// The paste buffer length.
    pub buf: Option<usize>,
    /// The number of times the buffer has been pasted since the last copy.
    pub pastes: Option<usize>,
}

impl Default for SpamState {
    fn default() -> (s: Self)
        ensures
            s == (SpamState { len: 0, cost: 0, buf: None, pastes: None }),
    {
        SpamState { len: 0, cost: 0, buf: None, pastes: None }
    }
}

/// Why an action was refused.
#[derive(Clone, Copy, Debug, PartialEq, Eq, Hash, Structural)]
pub enum SpamError {
    /// Typing single emojis after copying is pointless.
    OneAfterCopy,
    /// Copying twice in a row is pointless.
    AlreadyCopied,
    /// There is nothing on screen to copy.
    NothingToCopy,
    /// There is no buffer to paste.
    NoBuffer,
}

/// The cost of an action.
pub open spec fn action_cost(a: SpamAction) -> nat {
    match a {
        SpamAction::One => 1,
        SpamAction::Copy => 5,
        SpamAction::Paste => 3,
    }
}

impl SpamState {
    /// The cost of an action.
    pub fn cost(&self, action: &SpamAction) -> (c: usize)
        ensures
            c == action_cost(*action),
    {
        match action {
            SpamAction::One => 1,
            SpamAction::Copy => 5,
            SpamAction::Paste => 3,
        }
    }
}

/// The state after `a`, before its cost is added, or why it is refused.
pub open spec fn spam_step(s: SpamState, a: SpamAction) -> Result<SpamState, SpamError> {
    match a {
        SpamAction::One => if s.pastes is Some {
            Err(SpamError::OneAfterCopy)
        } else {
            Ok(SpamState { len: (s.len + 1) as usize, ..s })
        },
        SpamAction::Copy => if s.pastes == Some(0usize) {
            Err(SpamError::AlreadyCopied)
        } else if s.len == 0 {
            Err(SpamError::NothingToCopy)
        } else {
            Ok(SpamState { buf: Some(s.len), pastes: Some(0usize), ..s })
        },
        SpamAction::Paste => match s.buf {
            Some(b) => Ok(
                SpamState {
                    len: (s.len + b) as usize,
                    pastes: Some((s.pastes->Some_0 + 1) as usize),
                    ..s
                },
            ),
            None => Err(SpamError::NoBuffer),
        },
    }
}

/// The state after `a`, with its cost added, or why it is refused.
pub open spec fn spam_next(s: SpamState, a: SpamAction) -> Result<SpamState, SpamError> {
    match spam_step(s, a) {
        Ok(t) => Ok(SpamState { cost: (t.cost + action_cost(a)) as usize, ..t }),
        Err(e) => Err(e),
    }
}

/// The keyboard, with the length to reach.
#[derive(Clone, Copy, Debug)]
pub struct SpamMachine {
    pub target: usize,
}

impl Machine for SpamMachine {
    type State = SpamState;
    type Action = SpamAction;
    type Fx = ();
    type Error = SpamError;

    /// A paste needs a paste count beside the buffer, and no count
    /// overflows.
    open spec fn admissible(&self, s: SpamState, a: SpamAction) -> bool {
        &&& s.cost + action_cost(a) <= usize::MAX
        &&& a == SpamAction::One ==> s.len + 1 <= usize::MAX
        &&& a == SpamAction::Paste && s.buf is Some ==> s.pastes is Some && s.len + s.buf->Some_0
            <= usize::MAX && s.pastes->Some_0 + 1 <= usize::MAX
    }

    fn is_admissible(&self, s: &SpamState, a: &SpamAction) -> (b: bool) {
        if s.cost > usize::MAX - s.cost(a) {
            return false;
        }
        match a {
            SpamAction::One => s.len < usize::MAX,
            SpamAction::Copy => true,
            SpamAction::Paste => match (s.buf, s.pastes) {
                (Some(b), Some(p)) => s.len <= usize::MAX - b && p < usize::MAX,
                (Some(_), None) => false,
                (None, _) => true,
            },
        }
    }

    open spec fn outcome(
        &self,
        s: SpamState,
        a: SpamAction,
        r: Result<(SpamState, ()), SpamError>,
    ) -> bool {
        match spam_next(s, a) {
            Ok(t) => r == Ok::<(SpamState, ()), SpamError>((t, ())),
            Err(e) => r == Err::<(SpamState, ()), SpamError>(e),
        }
    }

    fn transition(&self, s: SpamState, a: SpamAction) -> (r: Result<(SpamState, ()), SpamError>) {
        let mut s = s;
        match a {
            SpamAction::One => {
                if s.pastes.is_some() {
                    return Err(SpamError::OneAfterCopy);
                }
                s.len = s.len + 1;
            },
            SpamAction::Copy => {
                if s.pastes == Some(0) {
                    return Err(SpamError::AlreadyCopied);
                }
                if s.len == 0 {
                    return Err(SpamError::NothingToCopy);
                }
                s.buf = Some(s.len);
                s.pastes = Some(0);
            },
            SpamAction::Paste => {
                match s.buf {
                    Some(b) => {
                        s.len = s.len + b;
                    },
                    None => {
                        return Err(SpamError::NoBuffer);
                    },
                }
                match s.pastes {
                    Some(p) => {
                        s.pastes = Some(p + 1);
                    },
                    None => {},
                }
            },
        }
        let c = s.cost(&a);
        s.cost = s.cost + c;
        Ok((s, ()))
    }

    /// The target length has been reached.
    fn is_terminal(&self, s: &SpamState) -> (b: bool)
        ensures
            b == (s.len >= self.target),
    {
        s.len >= self.target
    }
}

/// Every accepted action costs something and never shortens the text; a
/// copy fills the buffer with the text on screen, and a paste adds the
/// buffer to it.
pub proof fn lemma_spam_progress(s: SpamState, a: SpamAction)
    requires
        spam_next(s, a) is Ok,
        s.cost + action_cost(a) <= usize::MAX,
        a == SpamAction::One ==> s.len + 1 <= usize::MAX,
        a == SpamAction::Paste ==> s.len + s.buf->Some_0 <= usize::MAX,
    ensures
        spam_next(s, a)->Ok_0.cost > s.cost,
        spam_next(s, a)->Ok_0.len >= s.len,
        a == SpamAction::Copy ==> spam_next(s, a)->Ok_0.buf == Some(s.len),
        a == SpamAction::Paste ==> spam_next(s, a)->Ok_0.len == s.len + s.buf->Some_0,
{
}

} // verus!

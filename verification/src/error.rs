//! Diagnostics: the three error kinds and the bag that batches lexical ones.

use vstd::prelude::*;

verus! {

/// A diagnostic. Lexical errors are batched in an [`ErrorBag`] while the
/// lexer runs; parse and runtime errors are fatal the moment they arise.
#[derive(Debug)]
pub enum LoxError {
    LexerError(String),
    ParseError(String),
    RuntimeError(String),
}

impl LoxError {
    /// The human-readable message carried by any of the three kinds.
    pub open spec fn spec_message(&self) -> Seq<char> {
        match self {
            LoxError::LexerError(m) => m@,
            LoxError::ParseError(m) => m@,
            LoxError::RuntimeError(m) => m@,
        }
    }

    pub fn message(&self) -> (m: &String)
        ensures
            m@ == self.spec_message(),
    {
        match self {
            LoxError::LexerError(m) => m,
            LoxError::ParseError(m) => m,
            LoxError::RuntimeError(m) => m,
        }
    }
}

/// The messages that draining a bag hands back: every collected
/// diagnostic's message, most recent first, whatever its kind.
pub open spec fn drained_messages(errors: Seq<LoxError>) -> Seq<Seq<char>>
    decreases errors.len(),
{
    if errors.len() == 0 {
        Seq::empty()
    } else {
        seq![errors.last().spec_message()] + drained_messages(errors.drop_last())
    }
}

/// An ordered, append-only collection of diagnostics, filled during lexing
/// and drained once lexing completes.
pub struct ErrorBag {
    pub errors: Vec<LoxError>,
}

impl ErrorBag {
    pub fn new() -> (bag: ErrorBag)
        ensures
            bag.errors@ == Seq::<LoxError>::empty(),
    {
        ErrorBag { errors: Vec::new() }
    }

    /// Empties the bag, handing back every collected diagnostic's
    /// message in reverse order of arrival — no error kind is dropped.
    /// The caller reports them and aborts the run when the bag was not
    /// empty.
    pub fn drain(&mut self) -> (msgs: Vec<String>)
        ensures
            final(self).errors@.len() == 0,
            msgs@.map_values(|m: String| m@) == drained_messages(old(self).errors@),
    {
        let mut msgs: Vec<String> = Vec::new();
        loop
            invariant
                msgs@.map_values(|m: String| m@) + drained_messages(self.errors@)
                    == drained_messages(old(self).errors@),
            ensures
                self.errors@.len() == 0,
                msgs@.map_values(|m: String| m@) + drained_messages(self.errors@)
                    == drained_messages(old(self).errors@),
            decreases self.errors@.len(),
        {
            match self.errors.pop() {
                Some(e) => {
                    let ghost prev = msgs@;
                    let m = match e {
                        LoxError::LexerError(m) => m,
                        LoxError::ParseError(m) => m,
                        LoxError::RuntimeError(m) => m,
                    };
                    msgs.push(m);
                    assert(msgs@.map_values(|m: String| m@)
                        =~= prev.map_values(|m: String| m@).push(msgs@.last()@));
                },
                None => {
                    break;
                },
            }
        }
        assert(msgs@.map_values(|m: String| m@)
            =~= msgs@.map_values(|m: String| m@) + drained_messages(self.errors@));
        msgs
    }
}

} // verus!

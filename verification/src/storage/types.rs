use vstd::prelude::*;
use crate::text::str_eq;

verus! {

/// Authorization state of a registered public key.
#[derive(Clone, Copy, Debug, PartialEq, Eq, Hash, Structural)]
pub enum State {
    Pending,
    Authorized,
    Blocked,
}

/// The text under which each state is stored.
pub open spec fn state_text(s: State) -> Seq<char> {
    match s {
        State::Pending => "pending"@,
        State::Authorized => "authorized"@,
        State::Blocked => "blocked"@,
    }
}

/// The state that a text names, if any.
pub open spec fn state_named(t: Seq<char>) -> Option<State> {
    if t == "pending"@ {
        Some(State::Pending)
    } else if t == "authorized"@ {
        Some(State::Authorized)
    } else if t == "blocked"@ {
        Some(State::Blocked)
    } else {
        None
    }
}

/// The names of the states are distinct: reading back the name of a state gives that
/// state, and a text names a state exactly when it is that state's name.
pub proof fn lemma_state_names(s: State, t: Seq<char>)
    ensures
        state_named(state_text(s)) == Some(s),
        state_named(t) == Some(s) <==> t == state_text(s),
{
    reveal_strlit("pending");
    reveal_strlit("authorized");
    reveal_strlit("blocked");
    assert("pending"@ != "authorized"@ && "pending"@ != "blocked"@ && "authorized"@ != "blocked"@) by {
        assert("pending"@[0] != "authorized"@[0]);
        assert("pending"@[0] != "blocked"@[0]);
        assert("authorized"@[0] != "blocked"@[0]);
    }
}

impl State {
    /// Parses a stored state name; any other text names no state.
    pub fn from_str(s: &str) -> (r: Option<State>)
        ensures
            r == state_named(s@),
            r matches Some(st) ==> state_text(st) == s@,
            r is None ==> forall|st: State| state_text(st) != s@,
    {
        proof {
            reveal_strlit("pending");
            reveal_strlit("authorized");
            reveal_strlit("blocked");
        }
        if str_eq(s, "pending") {
            Some(State::Pending)
        } else if str_eq(s, "authorized") {
            Some(State::Authorized)
        } else if str_eq(s, "blocked") {
            Some(State::Blocked)
        } else {
            proof {
                assert forall|st: State| state_text(st) != s@ by {
                    lemma_state_names(st, s@);
                }
            }
            None
        }
    }

    /// The stored name of this state.
    pub fn as_str(&self) -> (r: &'static str)
        ensures
            r@ == state_text(*self),
    {
        match self {
            State::Pending => "pending",
            State::Authorized => "authorized",
            State::Blocked => "blocked",
        }
    }
}

} // verus!

verus! {

/// Result of an authentication attempt.
#[derive(Debug, PartialEq, Eq)]
pub enum AuthResult {
    /// Key is authorized and a token is returned.
    Authorized(String),
    /// Key is still in pending status.
    Pending,
    /// Key is blocked.
    Blocked,
    /// Key not found.
    NotFound,
}

/// The stored state and document of one key.
#[derive(Debug)]
pub struct ObjectRecord {
    pub state: State,
    pub json: String,
}

/// Storage error type.
#[derive(Debug, PartialEq, Eq)]
pub enum StorageErr {
    /// Too many pending requests.
    TooManyPendingRequests,
    /// Error reported by the store, with its message.
    Redis(String),
    /// Other error, with its message.
    Other(String),
}

impl StorageErr {
    /// Wraps an error message into a `StorageErr::Other`.
    pub fn other(message: String) -> (r: StorageErr)
        ensures
            r == StorageErr::Other(message),
    {
        StorageErr::Other(message)
    }

    /// The text that describes this error.
    pub fn message(&self) -> (r: String)
        ensures
            r@ == storage_err_text(*self),
    {
        match self {
            StorageErr::TooManyPendingRequests => String::from_str("Too many pending requests"),
            StorageErr::Redis(m) => crate::text::concat("Redis error: ", m.as_str()),
            StorageErr::Other(m) => crate::text::concat("Other error: ", m.as_str()),
        }
    }
}

/// The description of a storage error.
pub open spec fn storage_err_text(e: StorageErr) -> Seq<char> {
    match e {
        StorageErr::TooManyPendingRequests => "Too many pending requests"@,
        StorageErr::Redis(m) => "Redis error: "@ + m@,
        StorageErr::Other(m) => "Other error: "@ + m@,
    }
}

} // verus!

//! Access to the chat service that reports are sent to.
use vstd::prelude::*;

verus! {

/// Access to the chat service with a bot token.
pub struct SlackAccessor {
    pub token: String,
}

impl SlackAccessor {
    /// The value of the `Authorization` header: the token as a bearer token.
    pub fn authorization_value(&self) -> (r: String)
        ensures
            r@ == "Bearer "@ + self.token@,
    {
        let mut value = String::from_str("Bearer ");
        value.append(self.token.as_str());
        value
    }
}

} // verus!

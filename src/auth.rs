//! The session tokens that the host keeps in the system's credential store.
use vstd::prelude::*;

verus! {

/// An access token with the refresh token that renews it.
pub struct TokenSet {
    access: String,
    refresh: String,
}

impl View for TokenSet {
    type V = (Seq<char>, Seq<char>);

    /// The access token and the refresh token.
    closed spec fn view(&self) -> Self::V {
        (self.access@, self.refresh@)
    }
}

impl TokenSet {
    /// The pair of `access` and `refresh`.
    pub fn new(access: String, refresh: String) -> (r: Self)
        ensures
            r@ == (access@, refresh@),
    {
        TokenSet { access, refresh }
    }

    /// The access token.
    pub fn access(&self) -> (r: &String)
        ensures
            r@ == self@.0,
    {
        &self.access
    }

    /// The refresh token.
    pub fn refresh(&self) -> (r: &String)
        ensures
            r@ == self@.1,
    {
        &self.refresh
    }
}

} // verus!

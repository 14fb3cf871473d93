//! Unique token generation for event sources.

use vstd::prelude::*;

verus! {

/// A numbered token that tells event sources apart.
#[derive(Debug, Clone, Copy, PartialEq, Eq, Structural)]
pub struct Token(pub usize);

/// Hand out the current token and step the counter, so that every
/// call gives a token nobody was given before.
pub fn next_token(token: &mut Token) -> (r: Token)
    requires
        old(token).0 < usize::MAX,
    ensures
        r.0 == old(token).0,
        final(token).0 == old(token).0 + 1,
{
    let next = token.0;
    token.0 = token.0 + 1;
    Token(next)
}

} // verus!

//! Generic data-transfer object pairing an identifier with a payload.

use vstd::prelude::*;

verus! {

/// A message with an `id` and some `content`, handed between tasks.
#[derive(Clone)]
pub struct Message<T> {
    id: usize,
    content: T,
}

impl<T> Message<T> {
    /// The identifier this message carries, for use in contracts.
    pub closed spec fn spec_id(&self) -> usize {
        self.id
    }

    /// The payload this message carries, for use in contracts.
    pub closed spec fn spec_content(&self) -> T {
        self.content
    }

    /// Build a new message from its parts.
    pub fn new(id: usize, content: T) -> (r: Message<T>)
        ensures
            r.spec_id() == id,
            r.spec_content() == content,
    {
        Message { id, content }
    }

    /// The identifier this message carries.
    pub fn id(&self) -> (r: usize)
        ensures
            r == self.spec_id(),
    {
        self.id
    }

    /// The payload this message carries.
    pub fn content(&self) -> (r: &T)
        ensures
            r == self.spec_content(),
    {
        &self.content
    }
}

} // verus!

use vstd::prelude::*;

verus! {

/// A seat at the table. Seats are numbered from zero in joining order.
#[derive(Clone, Copy, Debug, PartialEq, Eq, Structural, PartialOrd, Ord, Hash)]
pub struct PlayerId(pub u32);

impl DeepView for PlayerId {
    type V = PlayerId;

    open spec fn deep_view(&self) -> PlayerId {
        *self
    }
}

/// The name of a character that a connected client plays as.
#[derive(Clone, Debug, PartialEq, Eq, Hash)]
pub struct CharacterId(pub String);

/// An opaque session token handed to a connected client.
#[derive(Clone, Debug, PartialEq, Eq, Hash)]
pub struct Token(pub String);

} // verus!

//! Failures of circuit synthesis.

use vstd::prelude::*;

verus! {

/// The sub-gadget in whose region a failure was raised.
#[derive(Clone, Copy, Debug, PartialEq, Eq, Structural)]
pub enum Gadget {
    /// The top-level region that holds the claim's own witnesses.
    Claim,
    /// The hash commitment gadget.
    Hash,
    /// The Merkle inclusion gadget.
    Merkle,
    /// The range assertion gadget.
    Range,
    /// The signature verification gadget.
    Signature,
}

/// Why synthesis stopped. A witness that merely fails a constraint is no error:
/// it shows only when the layout is checked.
#[derive(Clone, Copy, Debug, PartialEq, Eq, Structural)]
pub enum Error {
    /// A cell was assigned a second, different value.
    Collision { gadget: Gadget },
    /// A gadget was handed the wrong number of inputs.
    Arity { gadget: Gadget },
    /// The coordinates do not name a point of the signature curve.
    MalformedPoint,
    /// An integer does not stand for an element of the field it was meant for.
    Conversion { gadget: Gadget },
}

impl Error {
    /// The sub-gadget that raised the error.
    pub fn gadget(&self) -> (g: Gadget)
        ensures
            g == match *self {
                Error::Collision { gadget } => gadget,
                Error::Arity { gadget } => gadget,
                Error::MalformedPoint => Gadget::Signature,
                Error::Conversion { gadget } => gadget,
            },
    {
        match *self {
            Error::Collision { gadget } => gadget,
            Error::Arity { gadget } => gadget,
            Error::MalformedPoint => Gadget::Signature,
            Error::Conversion { gadget } => gadget,
        }
    }
}

} // verus!

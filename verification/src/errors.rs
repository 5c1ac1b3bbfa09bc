//! Error taxonomy of the RPC substrate, and the construction of a wire
//! error envelope from a materialized cause chain.

use vstd::prelude::*;

use crate::transport::ErrorEnvelope;
use crate::transport::envelope_eq;
use crate::transport::lemma_envelope_eq_reflexive;
use crate::transport::view_of_strings;
use vstd::string::StringExecFns;

verus! {

/// An error of the RPC machinery itself, as opposed to a handler's.
#[derive(Debug)]
pub enum RpcError {
    /// Input decoding failed.
    Decode {
        /// What the decoder reported.
        message: String,
    },
    /// Output encoding failed.
    Encode {
        /// What the encoder reported.
        message: String,
    },
    /// The call's waiter was abandoned before a reply arrived.
    Canceled,
}

impl RpcError {
    /// A diagnostic line for this error.
    pub fn describe(&self) -> (r: String)
        ensures
            match self {
                RpcError::Decode { message } => r@ == "Decode error: "@ + message@,
                RpcError::Encode { message } => r@ == "Encode error: "@ + message@,
                RpcError::Canceled => r@ == "Canceled error"@,
            },
    {
        match self {
            RpcError::Decode { message } => {
                let mut s = String::from_str("Decode error: ");
                s.append(message.as_str());
                s
            },
            RpcError::Encode { message } => {
                let mut s = String::from_str("Encode error: ");
                s.append(message.as_str());
                s
            },
            RpcError::Canceled => String::from_str("Canceled error"),
        }
    }
}

/// An untyped error wrapped for components that need an error chain: it
/// carries the envelope form directly.
#[derive(Debug)]
pub struct NestedError {
    /// The error chain.
    pub envelope: ErrorEnvelope,
}

/// Wraps an error chain as a `NestedError`.
pub fn nested_error(envelope: ErrorEnvelope) -> (r: NestedError)
    ensures
        envelope_eq(r.envelope, envelope),
{
    let r = NestedError { envelope };
    proof {
        lemma_envelope_eq_reflexive(r.envelope);
    }
    r
}

/// Whether `e` is the envelope of the cause chain `levels` from level
/// `i` on: one envelope per level, each wrapping the next, the last
/// wrapping nothing.
pub open spec fn envelope_matches_chain(
    e: ErrorEnvelope,
    levels: Seq<(String, Vec<String>)>,
    i: int,
) -> bool
    decreases levels.len() - i,
{
    &&& 0 <= i < levels.len()
    &&& e.message@ == levels[i].0@
    &&& view_of_strings(e.backtrace@) == view_of_strings(levels[i].1@)
    &&& if i == levels.len() - 1 {
        e.cause is None
    } else {
        e.cause is Some && envelope_matches_chain(*e.cause->0, levels, i + 1)
    }
}

/// Builds the wire envelope of a cause chain: one level per entry, in
/// order, each entry's message and backtrace lines carried verbatim and
/// each level wrapping the next.  The chain's depth is not bounded.
pub fn envelope_from_chain(levels: &Vec<(String, Vec<String>)>) -> (r: ErrorEnvelope)
    requires
        levels@.len() >= 1,
    ensures
        envelope_matches_chain(r, levels@, 0),
{
    envelope_from_chain_at(levels, 0)
}

/// Builds the envelope of the chain from level `i` on.
fn envelope_from_chain_at(levels: &Vec<(String, Vec<String>)>, i: usize) -> (r: ErrorEnvelope)
    requires
        i < levels@.len(),
    ensures
        envelope_matches_chain(r, levels@, i as int),
    decreases levels@.len() - i,
{
    let message = levels[i].0.clone();
    let backtrace = clone_strings(&levels[i].1);
    let cause = if i < levels.len() - 1 {
        Some(Box::new(envelope_from_chain_at(levels, i + 1)))
    } else {
        None
    };
    ErrorEnvelope { message, cause, backtrace }
}

/// Copies a list of strings, line for line.
pub fn clone_strings(v: &Vec<String>) -> (r: Vec<String>)
    ensures
        view_of_strings(r@) == view_of_strings(v@),
{
    let mut r: Vec<String> = Vec::new();
    let mut i: usize = 0;
    while i < v.len()
        invariant
            i <= v@.len(),
            view_of_strings(r@) == view_of_strings(v@.take(i as int)),
        decreases v@.len() - i,
    {
        r.push(v[i].clone());
        i = i + 1;
        proof {
            assert(v@.take(i as int) =~= v@.take(i - 1).push(v@[i - 1]));
            crate::transport::lemma_view_of_strings_push(v@.take(i - 1), v@[i - 1]);
            assert(view_of_strings(r@) =~= view_of_strings(v@.take(i - 1)).push(v@[i - 1]@));
        }
    }
    proof {
        assert(v@.take(v@.len() as int) =~= v@);
    }
    r
}

} // verus!

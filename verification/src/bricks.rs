//! The deferred-operation chain.
//!
//! Pending operations are kept in a singly-linked chain of bricks, each brick
//! exclusively owning the brick behind it. Resolving a brick against a
//! right-hand value consumes it, folds the value through every pending
//! operation beneath it, and stops after passing the first bracket (which is
//! popped) or at the end of the chain.
//!
//! A bracket acts as a barrier: the eager fold performed when a binary brick
//! is pushed never reaches past a bracket, so a bracketed subexpression can
//! only be folded into the outer chain by its matching closing parenthesis.

use vstd::prelude::*;
use crate::{Num, Prior};
use crate::math::{UnaryOp, BinaryOp, apply_unary, apply_binary, spec_apply_unary, spec_apply_binary};

verus! {

/// A chain of pending bricks; `None` is the empty chain, which behaves as
/// the implicit outermost bracket.
pub type Chain = Option<Box<Brick>>;

/// A brick holding a pending prefix-unary operation.
pub struct UnaryBrick {
    pub priority: Prior,
    pub operation: UnaryOp,
    pub prev: Chain,
}

/// A brick holding a pending binary operation together with its already
/// resolved left-hand operand.
pub struct BinaryBrick {
    pub priority: Prior,
    pub operation: BinaryOp,
    pub value: Num,
    pub prev: Chain,
}

/// The brick that marks a bracket scope; it owns the chain that existed
/// outside the bracket when the bracket opened.
pub struct Bracket {
    pub prev: Chain,
}

/// A pending element of the deferred-operation chain.
pub enum Brick {
    Unary(UnaryBrick),
    Binary(BinaryBrick),
    Bracket(Bracket),
}

/// The priority stored in a brick; a bracket reports the implicit baseline
/// priority `1`, the smallest value the default registry uses.
pub open spec fn spec_priority(b: Brick) -> Prior {
    match b {
        Brick::Unary(u) => u.priority,
        Brick::Binary(k) => k.priority,
        Brick::Bracket(_) => 1,
    }
}

/// What resolving a brick against a right-hand value yields: the value is
/// folded through every pending operation, recursively, until the fold
/// passes (and pops) a bracket or exhausts the chain.
pub open spec fn spec_resolve(b: Brick, v: Num) -> (Num, Chain)
    decreases b,
{
    match b {
        Brick::Unary(u) => spec_resolve_chain(u.prev, spec_apply_unary(u.operation, v)),
        Brick::Binary(k) => spec_resolve_chain(k.prev, spec_apply_binary(k.operation, k.value, v)),
        Brick::Bracket(br) => (v, br.prev),
    }
}

/// `spec_resolve` lifted to a possibly empty chain.
pub open spec fn spec_resolve_chain(c: Chain, v: Num) -> (Num, Chain)
    decreases c,
{
    match c {
        None => (v, None),
        Some(b) => spec_resolve(*b, v),
    }
}

/// Fold a value through the chain, stopping *in front of* the first bracket:
/// the bracket is kept, so the fold cannot leak out of a bracket scope.
pub open spec fn spec_fold_to_bracket(c: Chain, v: Num) -> (Num, Chain)
    decreases c,
{
    match c {
        None => (v, None),
        Some(b) => match *b {
            Brick::Unary(u) => spec_fold_to_bracket(u.prev, spec_apply_unary(u.operation, v)),
            Brick::Binary(k) => spec_fold_to_bracket(
                k.prev,
                spec_apply_binary(k.operation, k.value, v),
            ),
            Brick::Bracket(_) => (v, c),
        },
    }
}

/// Fold a value through the chain until the first bracket, which is popped;
/// `None` when the chain holds no bracket.
pub open spec fn spec_close_bracket(c: Chain, v: Num) -> Option<(Num, Chain)>
    decreases c,
{
    match c {
        None => None,
        Some(b) => match *b {
            Brick::Unary(u) => spec_close_bracket(u.prev, spec_apply_unary(u.operation, v)),
            Brick::Binary(k) => spec_close_bracket(
                k.prev,
                spec_apply_binary(k.operation, k.value, v),
            ),
            Brick::Bracket(br) => Some((v, br.prev)),
        },
    }
}

/// Fold a value through the entire chain; brackets pass the value through
/// unchanged. This is the fold performed at the end of the input.
pub open spec fn spec_fold_all(c: Chain, v: Num) -> Num
    decreases c,
{
    match c {
        None => v,
        Some(b) => match *b {
            Brick::Unary(u) => spec_fold_all(u.prev, spec_apply_unary(u.operation, v)),
            Brick::Binary(k) => spec_fold_all(k.prev, spec_apply_binary(k.operation, k.value, v)),
            Brick::Bracket(br) => spec_fold_all(br.prev, v),
        },
    }
}

/// The brick built by pushing a binary operation onto a chain. When the new
/// priority binds no tighter than the head's (numerically at least as great)
/// and the head is not a bracket, the pending chain is eagerly folded down
/// to the nearest bracket and the folded value becomes the new left-hand
/// operand; otherwise the brick simply sits on top of the chain. Folding on
/// equal priority makes chains of one priority left-associative.
pub open spec fn spec_push_binary(c: Chain, value: Num, operation: BinaryOp, priority: Prior) -> BinaryBrick {
    match c {
        None => BinaryBrick { priority, operation, value, prev: None },
        Some(b) => if !(*b is Bracket) && priority >= spec_priority(*b) {
            let folded = spec_fold_to_bracket(c, value);
            BinaryBrick { priority, operation, value: folded.0, prev: folded.1 }
        } else {
            BinaryBrick { priority, operation, value, prev: c }
        },
    }
}

impl Brick {
    /// The priority this brick resolves at.
    pub fn get_priority(&self) -> (p: Prior)
        ensures
            p == spec_priority(*self),
    {
        match self {
            Brick::Unary(u) => u.priority,
            Brick::Binary(k) => k.priority,
            Brick::Bracket(_) => 1,
        }
    }

    /// Whether this brick marks a bracket scope.
    pub fn is_bracket(&self) -> (r: bool)
        ensures
            r == (*self is Bracket),
    {
        matches!(self, Brick::Bracket(_))
    }

    /// Takes the number ahead; returns the folded result and the chain that
    /// remains (for a bracket, the chain that was outside it).
    pub fn resolve(self, v: Num) -> (res: (Num, Chain))
        ensures
            res == spec_resolve(self, v),
        decreases self,
    {
        match self {
            Brick::Unary(u) => {
                let value = apply_unary(u.operation, v);
                match u.prev {
                    Some(prev_brick) => (*prev_brick).resolve(value),
                    None => (value, None),
                }
            },
            Brick::Binary(k) => {
                let value = apply_binary(k.operation, k.value, v);
                match k.prev {
                    Some(prev_brick) => (*prev_brick).resolve(value),
                    None => (value, None),
                }
            },
            Brick::Bracket(br) => (v, br.prev),
        }
    }
}

impl UnaryBrick {
    /// A pending prefix-unary operation on top of `last_brick`. No eager
    /// fold is performed: a prefix operator is recognized before any operand
    /// exists, so there is nothing to fold against.
    pub fn new(last_brick: Chain, operation: UnaryOp, priority: Prior) -> (r: UnaryBrick)
        ensures
            r == (UnaryBrick { priority, operation, prev: last_brick }),
    {
        UnaryBrick { prev: last_brick, operation, priority }
    }
}

impl BinaryBrick {
    /// A pending binary operation with left-hand operand `value` on top of
    /// `last_brick`, eagerly folding the pending chain first when the new
    /// priority binds no tighter than the head's (see
    /// [`spec_push_binary`]).
    pub fn new(last_brick: Chain, value: Num, operation: BinaryOp, priority: Prior) -> (r: BinaryBrick)
        ensures
            r == spec_push_binary(last_brick, value, operation, priority),
    {
        match last_brick {
            None => BinaryBrick { priority, operation, value, prev: None },
            Some(b) => {
                let eager = !b.is_bracket() && priority >= b.get_priority();
                if eager {
                    let folded = fold_to_bracket(Some(b), value);
                    BinaryBrick { priority, operation, value: folded.0, prev: folded.1 }
                } else {
                    BinaryBrick { priority, operation, value, prev: Some(b) }
                }
            },
        }
    }
}

impl Bracket {
    /// A bracket scope owning the chain that existed when it opened.
    pub fn new(last_brick: Chain) -> (r: Bracket)
        ensures
            r == (Bracket { prev: last_brick }),
    {
        Bracket { prev: last_brick }
    }
}

/// Fold a value through the chain, keeping the first bracket reached.
pub fn fold_to_bracket(c: Chain, v: Num) -> (res: (Num, Chain))
    ensures
        res == spec_fold_to_bracket(c, v),
    decreases c,
{
    match c {
        None => (v, None),
        Some(b) => match *b {
            Brick::Unary(u) => fold_to_bracket(u.prev, apply_unary(u.operation, v)),
            Brick::Binary(k) => fold_to_bracket(k.prev, apply_binary(k.operation, k.value, v)),
            Brick::Bracket(br) => (v, Some(Box::new(Brick::Bracket(br)))),
        },
    }
}

/// Fold a value through the chain until a bracket, which is popped; `None`
/// when the chain holds no bracket.
pub fn close_bracket(c: Chain, v: Num) -> (res: Option<(Num, Chain)>)
    ensures
        res == spec_close_bracket(c, v),
    decreases c,
{
    match c {
        None => None,
        Some(b) => match *b {
            Brick::Unary(u) => close_bracket(u.prev, apply_unary(u.operation, v)),
            Brick::Binary(k) => close_bracket(k.prev, apply_binary(k.operation, k.value, v)),
            Brick::Bracket(br) => Some((v, br.prev)),
        },
    }
}

/// Fold a value through the entire chain, as at the end of the input.
pub fn fold_all(c: Chain, v: Num) -> (r: Num)
    ensures
        r == spec_fold_all(c, v),
    decreases c,
{
    match c {
        None => v,
        Some(b) => match *b {
            Brick::Unary(u) => fold_all(u.prev, apply_unary(u.operation, v)),
            Brick::Binary(k) => fold_all(k.prev, apply_binary(k.operation, k.value, v)),
            Brick::Bracket(br) => fold_all(br.prev, v),
        },
    }
}

} // verus!

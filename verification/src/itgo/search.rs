//! What the search needs around it: node kinds, optional bounds, and reporting evaluations.

use vstd::prelude::*;

use crate::itgo::game::MAX_LEN;
use crate::itgo::protocol::Eval;

verus! {

/// Largest evaluation: a win at ply 0.
pub const MAX_VALUE: i32 = 0x7FFF;

/// Evaluations at least this large (in absolute value) are forced results.
pub const DECISIVE: i32 = 0x7FFF - 832;

/// Raised to abandon a search that ran out of time or nodes.
pub struct ExitSearch;

/// A value that may be absent.
pub trait Get<T>: Sized {
    /// The value held, if any.
    spec fn held(self) -> Option<T>;

    fn get(self) -> (r: Option<T>)
        ensures
            r == self.held(),
    ;
}

impl<T> Get<T> for T {
    open spec fn held(self) -> Option<T> {
        Some(self)
    }

    fn get(self) -> (r: Option<T>) {
        Some(self)
    }
}

/// The absent value.
pub struct Empty<T>(core::marker::PhantomData<T>);

/// The absent value of type `T`.
pub fn empty<T>() -> Empty<T> {
    Empty(core::marker::PhantomData)
}

impl<T> Get<T> for Empty<T> {
    open spec fn held(self) -> Option<T> {
        None
    }

    fn get(self) -> (r: Option<T>) {
        None
    }
}

/// The kind of a search node: principal variation or zero window.
pub trait Node {
    /// Whether the node searches a principal variation.
    fn pv() -> bool;

    /// Whether the node searches a zero window.
    fn zw() -> bool;
}

/// A principal-variation node.
pub struct Pv;

impl Node for Pv {
    fn pv() -> (r: bool)
        ensures
            r,
    {
        true
    }

    fn zw() -> (r: bool)
        ensures
            !r,
    {
        false
    }
}

/// A zero-window node.
pub struct Zw;

impl Node for Zw {
    fn pv() -> (r: bool)
        ensures
            !r,
    {
        false
    }

    fn zw() -> (r: bool)
        ensures
            r,
    {
        true
    }
}

/// The evaluation `eval` found at ply `ply`, as the protocol reports it: a forced result as the
/// distance in plies to the end of the game, signed by who wins.
pub open spec fn spec_convert_eval(ply: int, eval: int) -> Eval {
    let a = if eval < 0 {
        -eval
    } else {
        eval
    };
    if a < DECISIVE {
        Eval::Score(eval as i32)
    } else {
        let distance = (MAX_VALUE - a) - ply;
        Eval::Decisive((if eval < 0 {
            -distance
        } else {
            distance
        }) as i32)
    }
}

/// Convert an evaluation found at ply `ply` for reporting.
pub fn convert_eval(ply: i32, eval: i32) -> (r: Eval)
    requires
        eval > i32::MIN,
        -1 <= ply <= MAX_LEN,
    ensures
        r == spec_convert_eval(ply as int, eval as int),
{
    let a = if eval < 0 {
        -eval
    } else {
        eval
    };
    if a < DECISIVE {
        Eval::Score(eval)
    } else {
        let distance = (MAX_VALUE - a) - ply;
        Eval::Decisive(if eval < 0 {
            -distance
        } else {
            distance
        })
    }
}

} // verus!

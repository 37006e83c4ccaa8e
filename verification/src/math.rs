//! The built-in arithmetic primitives: reducers over a list of numbers.
//!
//! Each primitive takes its already-evaluated argument list and folds it with
//! one of the trusted bit-pattern operations of [`crate::numeric`]. A
//! non-number argument is a type error; the specifics of which prefix is
//! folded before the error surfaces follow the executable shape exactly.

use crate::error::Error;
use crate::expression::Exp;
use crate::expression::ExpV;
use crate::expression::exps_deep;
use crate::expression::lemma_exps_deep;
use crate::expression::lemma_exps_deep_drop;
use crate::expression::res_deep;
use crate::list::List;
use crate::numeric::add_bits;
use crate::numeric::eq_bits;
use crate::numeric::mul_bits;
use crate::numeric::single_add;
use crate::numeric::single_eq;
use crate::numeric::single_mul;
use crate::numeric::single_sub;
use crate::numeric::sub_bits;
use vstd::prelude::*;

verus! {

/// The bit pattern of the single-precision value zero, the sum of nothing.
pub const ZERO_BITS: u32 = 0x0000_0000;

/// The bit pattern of the single-precision value one, the product of nothing.
pub const ONE_BITS: u32 = 0x3F80_0000;

/// Folds single-precision addition over views, left to right, from `acc`.
pub open spec fn fold_add(args: Seq<ExpV>, acc: u32) -> Result<u32, Error>
    decreases args.len(),
{
    if args.len() == 0 {
        Ok(acc)
    } else {
        match args[0] {
            ExpV::Number(b) => fold_add(args.drop_first(), single_add(acc, b)),
            _ => Err(Error::TypeError),
        }
    }
}

/// Folds single-precision subtraction over views, left to right, from `acc`.
pub open spec fn fold_sub(args: Seq<ExpV>, acc: u32) -> Result<u32, Error>
    decreases args.len(),
{
    if args.len() == 0 {
        Ok(acc)
    } else {
        match args[0] {
            ExpV::Number(b) => fold_sub(args.drop_first(), single_sub(acc, b)),
            _ => Err(Error::TypeError),
        }
    }
}

/// Folds single-precision multiplication over views, left to right, from `acc`.
pub open spec fn fold_mul(args: Seq<ExpV>, acc: u32) -> Result<u32, Error>
    decreases args.len(),
{
    if args.len() == 0 {
        Ok(acc)
    } else {
        match args[0] {
            ExpV::Number(b) => fold_mul(args.drop_first(), single_mul(acc, b)),
            _ => Err(Error::TypeError),
        }
    }
}

/// What `add` returns: the sum of all arguments, starting from zero; a type
/// error on the first non-number argument.
pub open spec fn add_spec(args: Seq<ExpV>) -> Result<ExpV, Error> {
    match fold_add(args, ZERO_BITS) {
        Ok(b) => Ok(ExpV::Number(b)),
        Err(e) => Err(e),
    }
}

/// What `subtract` returns: the first argument minus each of the rest; a type
/// error on an empty list, a non-number head, or the first non-number rest.
pub open spec fn subtract_spec(args: Seq<ExpV>) -> Result<ExpV, Error> {
    if args.len() == 0 {
        Err(Error::TypeError)
    } else {
        match args[0] {
            ExpV::Number(first) => match fold_sub(args.drop_first(), first) {
                Ok(b) => Ok(ExpV::Number(b)),
                Err(e) => Err(e),
            },
            _ => Err(Error::TypeError),
        }
    }
}

/// What `multiply` returns: the product of all arguments, starting from one;
/// a type error on the first non-number argument.
pub open spec fn multiply_spec(args: Seq<ExpV>) -> Result<ExpV, Error> {
    match fold_mul(args, ONE_BITS) {
        Ok(b) => Ok(ExpV::Number(b)),
        Err(e) => Err(e),
    }
}

/// Walks the rest of `equals`'s arguments: true when every one equals the
/// first by IEEE 754 comparison; false as soon as a number differs, even if a
/// later argument is not a number; a type error on a non-number before that.
pub open spec fn eq_rest(args: Seq<ExpV>, first: u32) -> Result<ExpV, Error>
    decreases args.len(),
{
    if args.len() == 0 {
        Ok(ExpV::Bool(true))
    } else {
        match args[0] {
            ExpV::Number(b) => if single_eq(b, first) {
                eq_rest(args.drop_first(), first)
            } else {
                Ok(ExpV::Bool(false))
            },
            _ => Err(Error::TypeError),
        }
    }
}

/// What `equals` returns: whether every argument equals the first, by IEEE
/// 754 comparison; a type error on an empty list or a non-number reached
/// before the answer is settled.
pub open spec fn equals_spec(args: Seq<ExpV>) -> Result<ExpV, Error> {
    if args.len() == 0 {
        Err(Error::TypeError)
    } else {
        match args[0] {
            ExpV::Number(first) => eq_rest(args.drop_first(), first),
            _ => Err(Error::TypeError),
        }
    }
}

/// What each native primitive returns on a list of evaluated arguments.
pub open spec fn native_spec(n: crate::expression::NativeFn, args: Seq<ExpV>) -> Result<
    ExpV,
    Error,
> {
    match n {
        crate::expression::NativeFn::Add => add_spec(args),
        crate::expression::NativeFn::Subtract => subtract_spec(args),
        crate::expression::NativeFn::Multiply => multiply_spec(args),
        crate::expression::NativeFn::Equals => equals_spec(args),
    }
}

fn fold_add_exec(args: &List<Exp>, acc: u32) -> (r: Result<u32, Error>)
    ensures
        r == fold_add(exps_deep(*args), acc),
    decreases args@.len(),
{
    proof {
        lemma_exps_deep(args);
    }
    match args.head() {
        None => Ok(acc),
        Some(e) => {
            proof {
                assert(exps_deep(*args)[0] == args@[0].deep_view());
                assert(exps_deep(*args)[0] == e.deep_view());
            }
            match e {
                Exp::Number(b) => {
                    let t = args.tail().unwrap();
                    proof {
                        lemma_exps_deep_drop(args, &t);
                    }
                    fold_add_exec(&t, add_bits(acc, *b))
                },
                _ => Err(Error::TypeError),
            }
        },
    }
}

fn fold_sub_exec(args: &List<Exp>, acc: u32) -> (r: Result<u32, Error>)
    ensures
        r == fold_sub(exps_deep(*args), acc),
    decreases args@.len(),
{
    proof {
        lemma_exps_deep(args);
    }
    match args.head() {
        None => Ok(acc),
        Some(e) => {
            proof {
                assert(exps_deep(*args)[0] == args@[0].deep_view());
                assert(exps_deep(*args)[0] == e.deep_view());
            }
            match e {
                Exp::Number(b) => {
                    let t = args.tail().unwrap();
                    proof {
                        lemma_exps_deep_drop(args, &t);
                    }
                    fold_sub_exec(&t, sub_bits(acc, *b))
                },
                _ => Err(Error::TypeError),
            }
        },
    }
}

fn fold_mul_exec(args: &List<Exp>, acc: u32) -> (r: Result<u32, Error>)
    ensures
        r == fold_mul(exps_deep(*args), acc),
    decreases args@.len(),
{
    proof {
        lemma_exps_deep(args);
    }
    match args.head() {
        None => Ok(acc),
        Some(e) => {
            proof {
                assert(exps_deep(*args)[0] == args@[0].deep_view());
                assert(exps_deep(*args)[0] == e.deep_view());
            }
            match e {
                Exp::Number(b) => {
                    let t = args.tail().unwrap();
                    proof {
                        lemma_exps_deep_drop(args, &t);
                    }
                    fold_mul_exec(&t, mul_bits(acc, *b))
                },
                _ => Err(Error::TypeError),
            }
        },
    }
}

/// Sums a list of numbers; the sum of no arguments is zero.
pub fn add(args: &List<Exp>) -> (r: Result<Exp, Error>)
    ensures
        res_deep(r) == add_spec(exps_deep(*args)),
        r matches Ok(e) ==> (e matches Exp::Number(_) || e matches Exp::Bool(_)),
{
    match fold_add_exec(args, ZERO_BITS) {
        Ok(b) => Ok(Exp::Number(b)),
        Err(e) => Err(e),
    }
}

/// Subtracts every later argument from the first.
pub fn subtract(args: &List<Exp>) -> (r: Result<Exp, Error>)
    ensures
        res_deep(r) == subtract_spec(exps_deep(*args)),
        r matches Ok(e) ==> (e matches Exp::Number(_) || e matches Exp::Bool(_)),
{
    proof {
        lemma_exps_deep(args);
    }
    match args.head() {
        Some(e) => {
            proof {
                assert(exps_deep(*args)[0] == args@[0].deep_view());
                assert(exps_deep(*args)[0] == e.deep_view());
            }
            match e {
            Exp::Number(first) => {
                let acc = *first;
                let t = args.tail().unwrap();
                proof {
                    lemma_exps_deep_drop(args, &t);
                }
                match fold_sub_exec(&t, acc) {
                    Ok(b) => Ok(Exp::Number(b)),
                    Err(e) => Err(e),
                }
            },
            _ => Err(Error::TypeError),
            }
        },
        None => Err(Error::TypeError),
    }
}

/// Multiplies a list of numbers; the product of no arguments is one.
pub fn multiply(args: &List<Exp>) -> (r: Result<Exp, Error>)
    ensures
        res_deep(r) == multiply_spec(exps_deep(*args)),
        r matches Ok(e) ==> (e matches Exp::Number(_) || e matches Exp::Bool(_)),
{
    match fold_mul_exec(args, ONE_BITS) {
        Ok(b) => Ok(Exp::Number(b)),
        Err(e) => Err(e),
    }
}

fn eq_rest_exec(args: &List<Exp>, first: u32) -> (r: Result<Exp, Error>)
    ensures
        res_deep(r) == eq_rest(exps_deep(*args), first),
        r matches Ok(e) ==> (e matches Exp::Number(_) || e matches Exp::Bool(_)),
    decreases args@.len(),
{
    proof {
        lemma_exps_deep(args);
    }
    match args.head() {
        None => Ok(Exp::Bool(true)),
        Some(e) => {
            proof {
                assert(exps_deep(*args)[0] == args@[0].deep_view());
                assert(exps_deep(*args)[0] == e.deep_view());
            }
            match e {
            Exp::Number(b) => {
                if eq_bits(*b, first) {
                    let t = args.tail().unwrap();
                    proof {
                        lemma_exps_deep_drop(args, &t);
                    }
                    eq_rest_exec(&t, first)
                } else {
                    Ok(Exp::Bool(false))
                }
            },
            _ => Err(Error::TypeError),
            }
        },
    }
}

/// Compares every later argument against the first by IEEE 754 equality.
pub fn equals(args: &List<Exp>) -> (r: Result<Exp, Error>)
    ensures
        res_deep(r) == equals_spec(exps_deep(*args)),
        r matches Ok(e) ==> (e matches Exp::Number(_) || e matches Exp::Bool(_)),
{
    proof {
        lemma_exps_deep(args);
    }
    match args.head() {
        Some(e) => {
            proof {
                assert(exps_deep(*args)[0] == args@[0].deep_view());
                assert(exps_deep(*args)[0] == e.deep_view());
            }
            match e {
            Exp::Number(first) => {
                let acc = *first;
                let t = args.tail().unwrap();
                proof {
                    lemma_exps_deep_drop(args, &t);
                }
                eq_rest_exec(&t, acc)
            },
            _ => Err(Error::TypeError),
            }
        },
        None => Err(Error::TypeError),
    }
}

} // verus!

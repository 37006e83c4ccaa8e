//! A small interpreter for a Lisp-family expression language.
//!
//! Source text is tokenized, parsed into a symbolic-expression tree, and
//! evaluated against a lexically scoped environment. The heart of the crate
//! is [`eval`], whose behaviour is pinned down, step for step, by the ghost
//! big-step semantics [`eval_spec`]: every executable evaluation is proved to
//! return exactly the value and the environment that the semantics assigns
//! to it. Evaluation carries a fuel bound on nesting depth as a safety
//! margin against native stack exhaustion; a program that would recurse past
//! the bound reports an error instead of overrunning the stack.

use vstd::prelude::*;

pub mod environment;
pub mod error;
pub mod expression;
pub mod lexer;
pub mod list;
pub mod math;
pub mod numeric;
pub mod parser;
pub mod special_forms;

use crate::environment::EnvV;
use crate::environment::Environment;
use crate::environment::expv_wf;
use crate::environment::lemma_env_wf;
use crate::environment::lemma_expv_wf_list;
use crate::environment::lemma_expv_wf_list_intro;
use crate::environment::lemma_expv_wf_mono;
use crate::environment::lookup_in;
use crate::error::Error;
use crate::expression::Exp;
use crate::expression::ExpV;
use crate::expression::SpecialFormFn;
use crate::expression::exps_deep;
use crate::expression::lemma_exps_deep;
use crate::expression::lemma_exps_deep_drop;
use crate::expression::lemma_exps_deep_empty;
use crate::expression::lemma_exps_deep_prepend;
use crate::expression::res_deep;
use crate::list::List;

verus! {

broadcast use lemma_env_wf;

/// Relies on `str`'s `PartialEq`: two string slices are equal exactly when
/// their character sequences are.
#[verifier::external_body]
pub(crate) fn str_eq(a: &str, b: &str) -> (r: bool)
    ensures
        r == (a@ == b@),
{
    a == b
}

/// The default bound on evaluation nesting depth.
pub const DEFAULT_FUEL: u64 = 1000;

/// The big-step semantics of one expression: the result and the environment
/// it leaves behind.
///
/// Numbers, booleans, functions and special forms evaluate to themselves. An
/// identifier resolves through the frame chain. A non-empty list whose first
/// element is a special form hands the form its remaining elements
/// unevaluated; any other list has every element evaluated left to right,
/// after which its first value - which must be a function - is applied to
/// the rest. `fuel` bounds the nesting depth; an exhausted bound is an error.
pub open spec fn eval_spec(e: ExpV, env: EnvV, fuel: nat) -> (Result<ExpV, Error>, EnvV)
    decreases fuel, 0int,
{
    if fuel == 0 {
        (Err(Error::DepthExceeded), env)
    } else {
        match e {
            ExpV::Ident(name) => (
                match lookup_in(env, env.current, name) {
                    Some(v) => Ok(v),
                    None => Err(Error::UndefinedIdentifier),
                },
                env,
            ),
            ExpV::List(elems) => if elems.len() == 0 {
                (Err(Error::NotCallable), env)
            } else {
                match elems[0] {
                    ExpV::SpecialForm(SpecialFormFn::Def) => crate::special_forms::def_spec(
                        elems.drop_first(),
                        env,
                        (fuel - 1) as nat,
                    ),
                    ExpV::SpecialForm(SpecialFormFn::Lambda) => crate::special_forms::lambda_spec(
                        elems.drop_first(),
                        env,
                    ),
                    ExpV::SpecialForm(SpecialFormFn::If) => crate::special_forms::if_spec(
                        elems.drop_first(),
                        env,
                        (fuel - 1) as nat,
                    ),
                    _ => {
                        let (rl, env1) = eval_list_spec(elems, env, (fuel - 1) as nat);
                        match rl {
                            Err(err) => (Err(err), env1),
                            Ok(vs) => match vs[0] {
                                ExpV::Function(f) => crate::expression::apply_spec(
                                    f,
                                    vs.drop_first(),
                                    env1,
                                    (fuel - 1) as nat,
                                ),
                                _ => (Err(Error::NotCallable), env1),
                            },
                        }
                    },
                }
            },
            _ => (Ok(e), env),
        }
    }
}

/// The big-step semantics of an argument list: every element evaluated in
/// sequence order, left to right, each against the environment the previous
/// one left behind.
pub open spec fn eval_list_spec(elems: Seq<ExpV>, env: EnvV, fuel: nat) -> (Result<
    Seq<ExpV>,
    Error,
>, EnvV)
    decreases fuel, elems.len(),
{
    if fuel == 0 {
        (Err(Error::DepthExceeded), env)
    } else if elems.len() == 0 {
        (Ok(Seq::<ExpV>::empty()), env)
    } else {
        let (r0, env0) = eval_spec(elems[0], env, (fuel - 1) as nat);
        match r0 {
            Err(err) => (Err(err), env0),
            Ok(v0) => {
                let (rr, env1) = eval_list_spec(elems.drop_first(), env0, fuel);
                match rr {
                    Err(err) => (Err(err), env1),
                    Ok(vs) => (Ok(seq![v0] + vs), env1),
                }
            },
        }
    }
}

/// Evaluates every element of a list, left to right, returning the list of
/// results.
fn eval_list(args: &List<Exp>, env: &mut Environment, fuel: u64) -> (r: Result<List<Exp>, Error>)
    requires
        old(env).wf(),
        expv_wf(ExpV::List(exps_deep(*args)), old(env)@.frames.len() as int),
    ensures
        final(env).wf(),
        old(env)@.frames.len() <= final(env)@.frames.len(),
        final(env)@.current == old(env)@.current,
        (match r {
            Ok(l) => Ok::<Seq<ExpV>, Error>(exps_deep(l)),
            Err(e) => Err(e),
        }) == eval_list_spec(exps_deep(*args), old(env)@, fuel as nat).0,
        final(env)@ == eval_list_spec(exps_deep(*args), old(env)@, fuel as nat).1,
        r matches Ok(l) ==> expv_wf(ExpV::List(exps_deep(l)), final(env)@.frames.len() as int)
            && exps_deep(l).len() == exps_deep(*args).len(),
    decreases fuel, args@.len(),
{
    if fuel == 0 {
        return Err(Error::DepthExceeded);
    }
    let ghost vs = exps_deep(*args);
    proof {
        lemma_exps_deep(args);
    }
    match args.head() {
        None => {
            let empty = List::<Exp>::new();
            proof {
                lemma_exps_deep_empty(&empty);
                lemma_expv_wf_list_intro(exps_deep(empty), env@.frames.len() as int);
            }
            Ok(empty)
        },
        Some(first) => {
            proof {
                assert(vs[0] == args@[0].deep_view());
                assert(vs[0] == first.deep_view());
                lemma_expv_wf_list(vs, old(env)@.frames.len() as int, 0);
            }
            match eval_with_fuel(first, env, fuel - 1) {
                Err(e) => Err(e),
                Ok(v0) => {
                    let ghost len1 = env@.frames.len() as int;
                    let t = args.tail().unwrap();
                    proof {
                        lemma_exps_deep_drop(args, &t);
                        lemma_expv_wf_mono(ExpV::List(vs), old(env)@.frames.len() as int, len1);
                        assert forall|i: int|
                            0 <= i < exps_deep(t).len() implies expv_wf(
                            #[trigger] exps_deep(t)[i],
                            len1,
                        ) by {
                            assert(exps_deep(t)[i] == vs[i + 1]);
                            lemma_expv_wf_list(vs, len1, i + 1);
                        }
                        lemma_expv_wf_list_intro(exps_deep(t), len1);
                    }
                    match eval_list(&t, env, fuel) {
                        Err(e) => Err(e),
                        Ok(rest) => {
                            let result = rest.prepend(v0);
                            proof {
                                lemma_exps_deep_prepend(&result, &rest, &v0);
                                lemma_expv_wf_mono(v0.deep_view(), len1, env@.frames.len() as int);
                                assert forall|i: int|
                                    0 <= i < exps_deep(result).len() implies expv_wf(
                                    #[trigger] exps_deep(result)[i],
                                    env@.frames.len() as int,
                                ) by {
                                    if i == 0 {
                                        assert(exps_deep(result)[0] == v0.deep_view());
                                    } else {
                                        assert(exps_deep(result)[i] == exps_deep(rest)[i - 1]);
                                        lemma_expv_wf_list(
                                            exps_deep(rest),
                                            env@.frames.len() as int,
                                            i - 1,
                                        );
                                    }
                                }
                                lemma_expv_wf_list_intro(
                                    exps_deep(result),
                                    env@.frames.len() as int,
                                );
                            }
                            Ok(result)
                        },
                    }
                },
            }
        },
    }
}

/// Evaluates an expression against an environment, with an explicit bound on
/// evaluation nesting depth. Returns exactly the value the big-step
/// semantics [`eval_spec`] assigns, and leaves the environment exactly as
/// the semantics says.
pub fn eval_with_fuel(exp: &Exp, env: &mut Environment, fuel: u64) -> (r: Result<Exp, Error>)
    requires
        old(env).wf(),
        expv_wf(exp.deep_view(), old(env)@.frames.len() as int),
    ensures
        final(env).wf(),
        old(env)@.frames.len() <= final(env)@.frames.len(),
        final(env)@.current == old(env)@.current,
        res_deep(r) == eval_spec(exp.deep_view(), old(env)@, fuel as nat).0,
        final(env)@ == eval_spec(exp.deep_view(), old(env)@, fuel as nat).1,
        r matches Ok(e) ==> expv_wf(e.deep_view(), final(env)@.frames.len() as int),
    decreases fuel, 0int,
{
    if fuel == 0 {
        return Err(Error::DepthExceeded);
    }
    match exp {
        Exp::Ident(name) => {
            match env.lookup(name.as_str()) {
                Some(v) => Ok(v),
                None => Err(Error::UndefinedIdentifier),
            }
        },
        Exp::List(l) => {
            let ghost elems = exps_deep(*l);
            proof {
                lemma_exps_deep(l);
            }
            match l.head() {
                None => Err(Error::NotCallable),
                Some(first) => {
                    proof {
                        assert(elems[0] == l@[0].deep_view());
                        assert(elems[0] == first.deep_view());
                    }
                    match first {
                        Exp::SpecialForm(k) => {
                            let rest = l.tail().unwrap();
                            proof {
                                lemma_exps_deep_drop(l, &rest);
                                assert forall|i: int|
                                    0 <= i < exps_deep(rest).len() implies expv_wf(
                                    #[trigger] exps_deep(rest)[i],
                                    old(env)@.frames.len() as int,
                                ) by {
                                    assert(exps_deep(rest)[i] == elems[i + 1]);
                                    lemma_expv_wf_list(
                                        elems,
                                        old(env)@.frames.len() as int,
                                        i + 1,
                                    );
                                }
                                lemma_expv_wf_list_intro(
                                    exps_deep(rest),
                                    old(env)@.frames.len() as int,
                                );
                            }
                            match k {
                                SpecialFormFn::Def => crate::special_forms::def(
                                    &rest,
                                    env,
                                    fuel - 1,
                                ),
                                SpecialFormFn::Lambda => crate::special_forms::lambda(&rest, env),
                                SpecialFormFn::If => crate::special_forms::if_exp(
                                    &rest,
                                    env,
                                    fuel - 1,
                                ),
                            }
                        },
                        _ => {
                            let evaluated = match eval_list(l, env, fuel - 1) {
                                Err(e) => {
                                    return Err(e);
                                },
                                Ok(ev) => ev,
                            };
                            proof {
                                lemma_exps_deep(&evaluated);
                            }
                            match evaluated.head() {
                                None => {
                                    proof {
                                        assert(false);
                                    }
                                    Err(Error::NotCallable)
                                },
                                Some(f_exp) => {
                                    proof {
                                        assert(exps_deep(evaluated)[0] == evaluated@[
                                            0].deep_view());
                                        assert(exps_deep(evaluated)[0] == f_exp.deep_view());
                                    }
                                    match f_exp {
                                        Exp::Function(f) => {
                                            let args = evaluated.tail().unwrap();
                                            proof {
                                                lemma_exps_deep_drop(&evaluated, &args);
                                                assert forall|i: int|
                                                    0 <= i < exps_deep(args).len() implies expv_wf(
                                                    #[trigger] exps_deep(args)[i],
                                                    env@.frames.len() as int,
                                                ) by {
                                                    assert(exps_deep(args)[i] == exps_deep(
                                                        evaluated,
                                                    )[i + 1]);
                                                    lemma_expv_wf_list(
                                                        exps_deep(evaluated),
                                                        env@.frames.len() as int,
                                                        i + 1,
                                                    );
                                                }
                                                lemma_expv_wf_list_intro(
                                                    exps_deep(args),
                                                    env@.frames.len() as int,
                                                );
                                                lemma_expv_wf_list(
                                                    exps_deep(evaluated),
                                                    env@.frames.len() as int,
                                                    0,
                                                );
                                            }
                                            f.call(&args, env, fuel - 1)
                                        },
                                        _ => Err(Error::NotCallable),
                                    }
                                },
                            }
                        },
                    }
                },
            }
        },
        _ => {
            let r = exp.duplicate();
            Ok(r)
        },
    }
}

/// Evaluates an expression against an environment, under the default
/// recursion-depth safety margin.
pub fn eval(exp: &Exp, env: &mut Environment) -> (r: Result<Exp, Error>)
    requires
        old(env).wf(),
        expv_wf(exp.deep_view(), old(env)@.frames.len() as int),
    ensures
        final(env).wf(),
        old(env)@.frames.len() <= final(env)@.frames.len(),
        final(env)@.current == old(env)@.current,
        res_deep(r) == eval_spec(exp.deep_view(), old(env)@, DEFAULT_FUEL as nat).0,
        final(env)@ == eval_spec(exp.deep_view(), old(env)@, DEFAULT_FUEL as nat).1,
        r matches Ok(e) ==> expv_wf(e.deep_view(), final(env)@.frames.len() as int),
{
    eval_with_fuel(exp, env, DEFAULT_FUEL)
}

} // verus!

//! The special forms: operators that receive their arguments unevaluated.
//!
//! `def` binds an identifier in the current frame, `lambda` builds a closure
//! over a fresh child of the current frame, and `if` evaluates exactly one of
//! its two branches. Each form decides itself what to evaluate and in which
//! order; that is what separates it from an ordinary call, whose arguments
//! are all evaluated up front.

use crate::environment::EnvV;
use crate::environment::Environment;
use crate::environment::FrameV;
use crate::environment::expv_wf;
use crate::environment::lemma_env_wf;
use crate::environment::lemma_expv_wf_list;
use crate::environment::lemma_expv_wf_list_intro;
use crate::error::Error;
use crate::expression::Exp;
use crate::expression::ExpV;
use crate::expression::Function;
use crate::expression::FunctionV;
use crate::expression::Lambda;
use crate::expression::LambdaV;
use crate::expression::exps_deep;
use crate::expression::lemma_exps_deep;
use crate::expression::lemma_exps_deep_drop;
use crate::expression::res_deep;
use crate::expression::truthy;
use crate::list::List;
use std::rc::Rc;
use vstd::prelude::*;

verus! {

broadcast use lemma_env_wf;

/// What the `def` form does with its unevaluated arguments `(ident value)`:
/// evaluates the value expression, then binds the identifier to the result in
/// the current frame, echoing the identifier back. A missing or non-identifier
/// first argument or a missing value expression is a type error; a name the
/// current frame already binds propagates the definition error, with the
/// value already evaluated (side effects and all).
pub open spec fn def_spec(args: Seq<ExpV>, env: EnvV, fuel: nat) -> (Result<ExpV, Error>, EnvV)
    decreases fuel, 0int,
{
    if fuel == 0 {
        (Err(Error::DepthExceeded), env)
    } else if args.len() == 0 {
        (Err(Error::TypeError), env)
    } else {
        match args[0] {
            ExpV::Ident(name) => if args.len() < 2 {
                (Err(Error::TypeError), env)
            } else {
                let (rv, env1) = crate::eval_spec(args[1], env, (fuel - 1) as nat);
                match rv {
                    Err(err) => (Err(err), env1),
                    Ok(value) => {
                        let frame = env1.frames[env1.current];
                        if frame.bindings.dom().contains(name) {
                            (Err(Error::AlreadyDefined), env1)
                        } else {
                            (
                                Ok(ExpV::Ident(name)),
                                EnvV {
                                    frames: env1.frames.update(
                                        env1.current,
                                        FrameV {
                                            bindings: frame.bindings.insert(name, value),
                                            parent: frame.parent,
                                        },
                                    ),
                                    current: env1.current,
                                },
                            )
                        }
                    },
                }
            },
            _ => (Err(Error::TypeError), env),
        }
    }
}

/// The parameter names of a `lambda` form's parameter list; a type error if
/// any element is not an identifier.
pub open spec fn params_of(elems: Seq<ExpV>) -> Result<Seq<Seq<char>>, Error>
    decreases elems.len(),
{
    if elems.len() == 0 {
        Ok(Seq::empty())
    } else {
        match elems[0] {
            ExpV::Ident(s) => match params_of(elems.drop_first()) {
                Ok(rest) => Ok(seq![s] + rest),
                Err(e) => Err(e),
            },
            _ => Err(Error::TypeError),
        }
    }
}

/// What the `lambda` form does with its unevaluated arguments
/// `(parameter-list body)`: allocates a fresh child of the current frame —
/// this happens before anything is validated, so the frame is allocated even
/// on the error paths — and yields a closure capturing that frame, the
/// parameter names, and the unevaluated body.
pub open spec fn lambda_spec(args: Seq<ExpV>, env: EnvV) -> (Result<ExpV, Error>, EnvV) {
    let child = env.frames.len() as int;
    let env1 = EnvV {
        frames: env.frames.push(
            FrameV { bindings: Map::<Seq<char>, ExpV>::empty(), parent: Some(env.current) },
        ),
        current: env.current,
    };
    if args.len() == 0 {
        (Err(Error::TypeError), env1)
    } else {
        match args[0] {
            ExpV::List(param_elems) => match params_of(param_elems) {
                Err(e) => (Err(e), env1),
                Ok(params) => if args.len() < 2 {
                    (Err(Error::TypeError), env1)
                } else {
                    (
                        Ok(
                            ExpV::Function(
                                FunctionV::Lambda(
                                    LambdaV { closing_env: child, params, body: Box::new(args[1]) },
                                ),
                            ),
                        ),
                        env1,
                    )
                },
            },
            _ => (Err(Error::TypeError), env1),
        }
    }
}

/// What the `if` form does with its unevaluated arguments
/// `(condition then else)`: evaluates the condition, then exactly one of the
/// two branches — the `then` branch if the condition is truthy, the `else`
/// branch otherwise. Fewer than three arguments is an error before anything
/// is evaluated; extra arguments are ignored.
pub open spec fn if_spec(args: Seq<ExpV>, env: EnvV, fuel: nat) -> (Result<ExpV, Error>, EnvV)
    decreases fuel, 0int,
{
    if fuel == 0 {
        (Err(Error::DepthExceeded), env)
    } else if args.len() < 3 {
        (Err(Error::MissingClause), env)
    } else {
        let (rc, env1) = crate::eval_spec(args[0], env, (fuel - 1) as nat);
        match rc {
            Err(err) => (Err(err), env1),
            Ok(c) => if truthy(c) {
                crate::eval_spec(args[1], env1, (fuel - 1) as nat)
            } else {
                crate::eval_spec(args[2], env1, (fuel - 1) as nat)
            },
        }
    }
}

/// Of an `if` form's two branches, only the one selected by the condition's
/// truthiness contributes anything: given enough fuel and all three clauses,
/// once the condition evaluates to a value, the form's outcome — result and
/// environment alike — is exactly that of evaluating the selected branch
/// against the environment the condition left behind. The other branch has
/// no observable effect.
pub proof fn lemma_if_takes_one_branch(args: Seq<ExpV>, env: EnvV, fuel: nat)
    requires
        fuel > 0,
        args.len() >= 3,
    ensures
        ({
            let (rc, env1) = crate::eval_spec(args[0], env, (fuel - 1) as nat);
            rc matches Ok(c) ==> if_spec(args, env, fuel) == (if truthy(c) {
                crate::eval_spec(args[1], env1, (fuel - 1) as nat)
            } else {
                crate::eval_spec(args[2], env1, (fuel - 1) as nat)
            })
        }),
{
}

/// Evaluates `(def ident value)`: binds `ident` to the evaluated `value` in
/// the current frame and echoes the identifier back.
pub fn def(args: &List<Exp>, env: &mut Environment, fuel: u64) -> (r: Result<Exp, Error>)
    requires
        old(env).wf(),
        expv_wf(ExpV::List(exps_deep(*args)), old(env)@.frames.len() as int),
    ensures
        final(env).wf(),
        old(env)@.frames.len() <= final(env)@.frames.len(),
        final(env)@.current == old(env)@.current,
        res_deep(r) == def_spec(exps_deep(*args), old(env)@, fuel as nat).0,
        final(env)@ == def_spec(exps_deep(*args), old(env)@, fuel as nat).1,
        r matches Ok(e) ==> expv_wf(e.deep_view(), final(env)@.frames.len() as int),
    decreases fuel, 0int,
{
    if fuel == 0 {
        return Err(Error::DepthExceeded);
    }
    let ghost vs = exps_deep(*args);
    proof {
        lemma_exps_deep(args);
    }
    match args.head() {
        None => Err(Error::TypeError),
        Some(first) => {
            proof {
                assert(vs[0] == args@[0].deep_view());
                assert(vs[0] == first.deep_view());
            }
            match first {
                Exp::Ident(name) => {
                    let rest = args.tail().unwrap();
                    proof {
                        lemma_exps_deep_drop(args, &rest);
                        lemma_exps_deep(&rest);
                    }
                    match rest.head() {
                        None => Err(Error::TypeError),
                        Some(value_exp) => {
                            proof {
                                assert(exps_deep(rest)[0] == rest@[0].deep_view());
                                assert(vs[1] == value_exp.deep_view());
                                lemma_expv_wf_list(vs, old(env)@.frames.len() as int, 1);
                            }
                            match crate::eval_with_fuel(value_exp, env, fuel - 1) {
                                Err(e) => Err(e),
                                Ok(value) => {
                                    match env.define(name.as_str(), &value) {
                                        Err(e) => Err(e),
                                        Ok(_) => Ok(Exp::Ident(name.clone())),
                                    }
                                },
                            }
                        },
                    }
                },
                _ => Err(Error::TypeError),
            }
        },
    }
}

/// Collects the parameter names of a parameter list, in order.
fn collect_params(elems: &List<Exp>) -> (r: Result<Vec<String>, Error>)
    ensures
        match r {
            Ok(v) => params_of(exps_deep(*elems)) == Ok::<Seq<Seq<char>>, Error>(v.deep_view()),
            Err(e) => params_of(exps_deep(*elems)) == Err::<Seq<Seq<char>>, Error>(e),
        },
    decreases elems@.len(),
{
    proof {
        lemma_exps_deep(elems);
    }
    match elems.head() {
        None => {
            let v: Vec<String> = Vec::new();
            proof {
                assert(v.deep_view() =~= Seq::<Seq<char>>::empty());
            }
            Ok(v)
        },
        Some(e) => {
            proof {
                assert(exps_deep(*elems)[0] == elems@[0].deep_view());
                assert(exps_deep(*elems)[0] == e.deep_view());
            }
            match e {
                Exp::Ident(s) => {
                    let t = elems.tail().unwrap();
                    proof {
                        lemma_exps_deep_drop(elems, &t);
                    }
                    match collect_params(&t) {
                        Ok(rest_params) => {
                            let ghost rpd = rest_params.deep_view();
                            let ghost rpv = rest_params@;
                            let mut v = rest_params;
                            v.insert(0, s.clone());
                            proof {
                                assert forall|j: int|
                                    0 <= j < v.deep_view().len() implies v.deep_view()[j] == (
                                seq![s@] + rpd)[j] by {
                                    assert(v.deep_view()[j] == v@[j].deep_view());
                                    if j > 0 {
                                        assert(v@[j] == rpv[j - 1]);
                                        assert(rpd[j - 1] == rpv[j - 1].deep_view());
                                    }
                                }
                                assert(v.deep_view() =~= seq![s@] + rpd);
                            }
                            Ok(v)
                        },
                        Err(e) => Err(e),
                    }
                },
                _ => Err(Error::TypeError),
            }
        },
    }
}

/// Evaluates `(lambda (params) body)`: allocates a fresh child of the current
/// frame and yields a closure capturing it together with the parameter names
/// and the unevaluated body.
pub fn lambda(args: &List<Exp>, env: &mut Environment) -> (r: Result<Exp, Error>)
    requires
        old(env).wf(),
        expv_wf(ExpV::List(exps_deep(*args)), old(env)@.frames.len() as int),
    ensures
        final(env).wf(),
        old(env)@.frames.len() <= final(env)@.frames.len(),
        final(env)@.current == old(env)@.current,
        res_deep(r) == lambda_spec(exps_deep(*args), old(env)@).0,
        final(env)@ == lambda_spec(exps_deep(*args), old(env)@).1,
        r matches Ok(e) ==> expv_wf(e.deep_view(), final(env)@.frames.len() as int),
{
    let ghost vs = exps_deep(*args);
    proof {
        lemma_exps_deep(args);
    }
    let saved = env.current();
    let child = env.extend();
    env.set_current(saved);
    match args.head() {
        None => Err(Error::TypeError),
        Some(first) => {
            proof {
                assert(vs[0] == args@[0].deep_view());
                assert(vs[0] == first.deep_view());
            }
            match first {
                Exp::List(param_list) => {
                    match collect_params(param_list) {
                        Err(e) => Err(e),
                        Ok(params) => {
                            let rest = args.tail().unwrap();
                            proof {
                                lemma_exps_deep_drop(args, &rest);
                                lemma_exps_deep(&rest);
                            }
                            match rest.head() {
                                None => Err(Error::TypeError),
                                Some(body) => {
                                    proof {
                                        assert(exps_deep(rest)[0] == rest@[0].deep_view());
                                        assert(vs[1] == body.deep_view());
                                    }
                                    let lam = Lambda {
                                        closing_env: child,
                                        params,
                                        body: Rc::new(body.duplicate()),
                                    };
                                    let result = Exp::Function(Function::Lambda(lam));
                                    proof {
                                        assert(expv_wf(
                                            result.deep_view(),
                                            env@.frames.len() as int,
                                        )) by {
                                            lemma_expv_wf_list(
                                                vs,
                                                old(env)@.frames.len() as int,
                                                1,
                                            );
                                            crate::environment::lemma_expv_wf_mono(
                                                vs[1],
                                                old(env)@.frames.len() as int,
                                                env@.frames.len() as int,
                                            );
                                        }
                                    }
                                    Ok(result)
                                },
                            }
                        },
                    }
                },
                _ => Err(Error::TypeError),
            }
        },
    }
}

/// Evaluates `(if condition then else)`: evaluates the condition, then
/// exactly the branch the condition's truthiness selects.
pub fn if_exp(args: &List<Exp>, env: &mut Environment, fuel: u64) -> (r: Result<Exp, Error>)
    requires
        old(env).wf(),
        expv_wf(ExpV::List(exps_deep(*args)), old(env)@.frames.len() as int),
    ensures
        final(env).wf(),
        old(env)@.frames.len() <= final(env)@.frames.len(),
        final(env)@.current == old(env)@.current,
        res_deep(r) == if_spec(exps_deep(*args), old(env)@, fuel as nat).0,
        final(env)@ == if_spec(exps_deep(*args), old(env)@, fuel as nat).1,
        r matches Ok(e) ==> expv_wf(e.deep_view(), final(env)@.frames.len() as int),
    decreases fuel, 0int,
{
    if fuel == 0 {
        return Err(Error::DepthExceeded);
    }
    let ghost vs = exps_deep(*args);
    proof {
        lemma_exps_deep(args);
    }
    match args.head() {
        None => Err(Error::MissingClause),
        Some(cond_exp) => {
            let rest1 = args.tail().unwrap();
            proof {
                lemma_exps_deep_drop(args, &rest1);
                lemma_exps_deep(&rest1);
            }
            match rest1.head() {
                None => Err(Error::MissingClause),
                Some(then_exp) => {
                    let rest2 = rest1.tail().unwrap();
                    proof {
                        lemma_exps_deep_drop(&rest1, &rest2);
                        lemma_exps_deep(&rest2);
                    }
                    match rest2.head() {
                        None => Err(Error::MissingClause),
                        Some(else_exp) => {
                            proof {
                                assert(vs[0] == args@[0].deep_view());
                                assert(vs[0] == cond_exp.deep_view());
                                assert(exps_deep(rest1)[0] == rest1@[0].deep_view());
                                assert(vs[1] == then_exp.deep_view());
                                assert(exps_deep(rest2)[0] == rest2@[0].deep_view());
                                assert(vs[2] == else_exp.deep_view());
                                lemma_expv_wf_list(vs, old(env)@.frames.len() as int, 0);
                                lemma_expv_wf_list(vs, old(env)@.frames.len() as int, 1);
                                lemma_expv_wf_list(vs, old(env)@.frames.len() as int, 2);
                            }
                            match crate::eval_with_fuel(cond_exp, env, fuel - 1) {
                                Err(e) => Err(e),
                                Ok(c) => {
                                    proof {
                                        crate::environment::lemma_expv_wf_mono(
                                            vs[1],
                                            old(env)@.frames.len() as int,
                                            env@.frames.len() as int,
                                        );
                                        crate::environment::lemma_expv_wf_mono(
                                            vs[2],
                                            old(env)@.frames.len() as int,
                                            env@.frames.len() as int,
                                        );
                                    }
                                    if c.is_truthy() {
                                        crate::eval_with_fuel(then_exp, env, fuel - 1)
                                    } else {
                                        crate::eval_with_fuel(else_exp, env, fuel - 1)
                                    }
                                },
                            }
                        },
                    }
                },
            }
        },
    }
}

} // verus!

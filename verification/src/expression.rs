//! The expression type: the language's universal value and syntax-tree node.
//!
//! Every expression is abstracted by a ghost [`ExpV`] value, its *deep view*:
//! strings become character sequences, lists become sequences of views, and a
//! closure keeps its captured frame index, its parameter names and the view of
//! its body. All contracts in this crate speak about deep views.

use crate::environment::EnvV;
use crate::environment::Environment;
use crate::environment::FrameV;
use crate::environment::expv_wf;
use crate::environment::lemma_env_wf;
use crate::environment::lemma_expv_wf_list;
use crate::environment::lemma_expv_wf_list_intro;
use crate::environment::lemma_expv_wf_mono;
use crate::error::Error;
use crate::list::Link;
use crate::list::List;
use crate::list::lemma_list_view;
use crate::list::link_view;
use crate::list::rc_clone;
use crate::numeric::decimal_of_single;
use crate::numeric::format_bits;
use std::rc::Rc;
use vstd::prelude::*;

verus! {

/// The built-in arithmetic primitives a [`Function::Native`] can denote.
#[derive(Clone, Copy, Debug, PartialEq, Eq, Structural)]
pub enum NativeFn {
    Add,
    Subtract,
    Multiply,
    Equals,
}

/// The evaluator-recognized operators that receive their arguments
/// unevaluated, together with the environment.
#[derive(Clone, Copy, Debug, PartialEq, Eq, Structural)]
pub enum SpecialFormFn {
    Def,
    Lambda,
    If,
}

/// A user-defined function: parameter names, an unevaluated body, and the
/// index of the frame captured when the `lambda` form was evaluated.
///
/// The body is held through a shared handle so that duplicating a closure is
/// a constant-time operation, like every other expression.
pub struct Lambda {
    pub closing_env: usize,
    pub params: Vec<String>,
    pub body: Rc<Exp>,
}

/// A callable value: a user-defined closure or a built-in primitive.
pub enum Function {
    Lambda(Lambda),
    Native(NativeFn),
}

/// The tagged union flowing through parsing and evaluation.
///
/// Numbers carry the bit pattern of a 32-bit IEEE 754 value; the arithmetic
/// on such bit patterns lives in [`crate::numeric`].
pub enum Exp {
    Ident(String),
    Number(u32),
    Bool(bool),
    SpecialForm(SpecialFormFn),
    Function(Function),
    List(List<Exp>),
}

/// The ghost abstraction of an [`Exp`].
pub ghost enum ExpV {
    Ident(Seq<char>),
    Number(u32),
    Bool(bool),
    SpecialForm(SpecialFormFn),
    Function(FunctionV),
    List(Seq<ExpV>),
}

/// The ghost abstraction of a [`Function`].
pub ghost enum FunctionV {
    Lambda(LambdaV),
    Native(NativeFn),
}

/// The ghost abstraction of a [`Lambda`].
pub ghost struct LambdaV {
    pub closing_env: int,
    pub params: Seq<Seq<char>>,
    pub body: Box<ExpV>,
}

impl DeepView for Exp {
    type V = ExpV;

    open spec fn deep_view(&self) -> ExpV
        decreases self,
    {
        match self {
            Exp::Ident(s) => ExpV::Ident(s@),
            Exp::Number(bits) => ExpV::Number(*bits),
            Exp::Bool(b) => ExpV::Bool(*b),
            Exp::SpecialForm(f) => ExpV::SpecialForm(*f),
            Exp::Function(f) => ExpV::Function(f.deep_view()),
            Exp::List(l) => ExpV::List(exps_deep(*l)),
        }
    }
}

/// The deep views of the expressions on a cons chain, nearest first.
pub(crate) open spec fn exps_link_deep(l: Link<Exp>) -> Seq<ExpV>
    decreases l,
{
    match l {
        None => Seq::empty(),
        Some(node) => seq![(*node).elem.deep_view()] + exps_link_deep((*node).next),
    }
}

/// The deep views of an expression list's elements, in order.
pub closed spec fn exps_deep(l: List<Exp>) -> Seq<ExpV>
    decreases l,
{
    exps_link_deep(l.head)
}

proof fn lemma_exps_link_deep(l: &Link<Exp>)
    ensures
        exps_link_deep(*l).len() == link_view(*l).len(),
        forall|i: int|
            0 <= i < link_view(*l).len() ==> exps_link_deep(*l)[i] == #[trigger] link_view(
                *l,
            )[i].deep_view(),
    decreases *l,
{
    match l {
        None => {},
        Some(node) => {
            lemma_exps_link_deep(&(**node).next);
            assert(exps_link_deep(*l) == seq![(**node).elem.deep_view()] + exps_link_deep(
                (**node).next,
            ));
            assert(link_view(*l) == seq![(**node).elem] + link_view((**node).next));
            assert forall|i: int|
                0 <= i < link_view(*l).len() implies exps_link_deep(*l)[i] == link_view(
                *l,
            )[i].deep_view() by {
                if i > 0 {
                    assert(link_view(*l)[i] == link_view((**node).next)[i - 1]);
                    assert(exps_link_deep(*l)[i] == exps_link_deep((**node).next)[i - 1]);
                }
            }
        },
    }
}

/// An expression list's deep views abstract its elements in place: the two
/// sequences have the same length and correspond index by index.
pub broadcast proof fn lemma_exps_deep(l: &List<Exp>)
    ensures
        #[trigger] exps_deep(*l).len() == l@.len(),
        forall|i: int| 0 <= i < l@.len() ==> exps_deep(*l)[i] == #[trigger] l@[i].deep_view(),
{
    broadcast use lemma_list_view;

    lemma_exps_link_deep(&l.head);
}

/// An evaluation outcome abstracted: the value by its deep view, the error
/// unchanged.
pub open spec fn res_deep(r: Result<Exp, crate::error::Error>) -> Result<ExpV, crate::error::Error> {
    match r {
        Ok(e) => Ok(e.deep_view()),
        Err(e) => Err(e),
    }
}

/// An empty list has no deep views.
pub proof fn lemma_exps_deep_empty(l: &List<Exp>)
    requires
        l@.len() == 0,
    ensures
        exps_deep(*l) == Seq::<ExpV>::empty(),
{
    lemma_exps_deep(l);
    assert(exps_deep(*l) =~= Seq::<ExpV>::empty());
}

/// Prepending an element prepends its deep view.
pub proof fn lemma_exps_deep_prepend(l: &List<Exp>, t: &List<Exp>, e: &Exp)
    requires
        l@ == seq![*e] + t@,
    ensures
        exps_deep(*l) == seq![e.deep_view()] + exps_deep(*t),
{
    lemma_exps_deep(l);
    lemma_exps_deep(t);
    assert forall|i: int| 0 <= i < l@.len() implies exps_deep(*l)[i] == (seq![e.deep_view()]
        + exps_deep(*t))[i] by {
        if i > 0 {
            assert(l@[i] == t@[i - 1]);
            assert(exps_deep(*t)[i - 1] == t@[i - 1].deep_view());
        } else {
            assert(l@[0] == *e);
        }
    }
    assert(exps_deep(*l) =~= seq![e.deep_view()] + exps_deep(*t));
}

/// Dropping a list's first element drops the first of its deep views.
pub proof fn lemma_exps_deep_drop(l: &List<Exp>, t: &List<Exp>)
    requires
        l@.len() > 0,
        t@ == l@.drop_first(),
    ensures
        exps_deep(*t) == exps_deep(*l).drop_first(),
{
    lemma_exps_deep(l);
    lemma_exps_deep(t);
    assert forall|i: int| 0 <= i < t@.len() implies exps_deep(*t)[i] == exps_deep(
        *l,
    ).drop_first()[i] by {
        assert(t@[i] == l@[i + 1]);
        assert(exps_deep(*t)[i] == t@[i].deep_view());
        assert(exps_deep(*l)[i + 1] == l@[i + 1].deep_view());
    }
    assert(exps_deep(*t) =~= exps_deep(*l).drop_first());
}

impl DeepView for Function {
    type V = FunctionV;

    open spec fn deep_view(&self) -> FunctionV
        decreases self,
    {
        match self {
            Function::Lambda(l) => FunctionV::Lambda(l.deep_view()),
            Function::Native(n) => FunctionV::Native(*n),
        }
    }
}

impl DeepView for Lambda {
    type V = LambdaV;

    open spec fn deep_view(&self) -> LambdaV
        decreases self,
    {
        LambdaV {
            closing_env: self.closing_env as int,
            params: self.params.deep_view(),
            body: Box::new((*self.body).deep_view()),
        }
    }
}

/// The display text of an expression: a number in decimal, an identifier or
/// boolean as itself, a callable or special form as an opaque placeholder,
/// and a list as its elements' texts, space-joined inside parentheses.
pub open spec fn display_of(v: ExpV) -> Seq<char>
    decreases v,
{
    match v {
        ExpV::Number(bits) => decimal_of_single(bits),
        ExpV::Ident(s) => s,
        ExpV::Bool(b) => if b {
            "true"@
        } else {
            "false"@
        },
        ExpV::Function(_) => "#function#"@,
        ExpV::SpecialForm(_) => "#specialform#"@,
        ExpV::List(elems) => "("@ + display_items(elems) + ")"@,
    }
}

/// The display texts of a list's elements, joined by single spaces.
pub open spec fn display_items(elems: Seq<ExpV>) -> Seq<char>
    decreases elems,
{
    if elems.len() == 0 {
        Seq::<char>::empty()
    } else if elems.len() == 1 {
        display_of(elems[0])
    } else {
        display_of(elems[0]) + " "@ + display_items(elems.drop_first())
    }
}

/// Appends the space-joined display texts of a chain's elements to `out`.
fn display_into(l: &Link<Exp>, out: &mut String)
    ensures
        final(out)@ == old(out)@ + display_items(exps_link_deep(*l)),
    decreases *l,
{
    match l {
        None => {
            proof {
                assert(old(out)@ + display_items(exps_link_deep(*l)) =~= old(out)@);
            }
        },
        Some(node) => {
            let s = (**node).elem.to_display_string();
            out.append(s.as_str());
            let nxt = &(**node).next;
            proof {
                assert(exps_link_deep(*l) == seq![(**node).elem.deep_view()] + exps_link_deep(
                    *nxt,
                ));
                assert((seq![(**node).elem.deep_view()] + exps_link_deep(*nxt)).drop_first()
                    =~= exps_link_deep(*nxt));
            }
            match nxt {
                Some(n2) => {
                    out.append(" ");
                    display_into(nxt, out);
                    proof {
                        assert(exps_link_deep(*nxt) == seq![(**n2).elem.deep_view()]
                            + exps_link_deep((**n2).next));
                        assert(exps_link_deep(*nxt).len() >= 1);
                        assert(out@ =~= old(out)@ + display_items(exps_link_deep(*l)));
                    }
                },
                None => {
                    display_into(nxt, out);
                    proof {
                        assert(exps_link_deep(*nxt).len() == 0) by {
                            reveal_with_fuel(exps_link_deep, 2);
                        }
                        assert(out@ =~= old(out)@ + display_items(exps_link_deep(*l)));
                    }
                },
            }
        },
    }
}

/// The truthiness test of the conditional form: a false boolean is the one
/// false value; every other expression, the number zero included, is truthy.
pub open spec fn truthy(v: ExpV) -> bool {
    v != ExpV::Bool(false)
}

impl Exp {
    /// Whether the conditional form takes this expression's branch.
    pub fn is_truthy(&self) -> (r: bool)
        ensures
            r == truthy(self.deep_view()),
    {
        match self {
            Exp::Bool(false) => false,
            _ => true,
        }
    }

    /// The display text of the expression; see [`display_of`].
    pub fn to_display_string(&self) -> (r: String)
        ensures
            r@ == display_of(self.deep_view()),
        decreases self,
    {
        match self {
            Exp::Number(bits) => format_bits(*bits),
            Exp::Ident(s) => s.clone(),
            Exp::Bool(b) => {
                if *b {
                    "true".to_owned()
                } else {
                    "false".to_owned()
                }
            },
            Exp::Function(_) => "#function#".to_owned(),
            Exp::SpecialForm(_) => "#specialform#".to_owned(),
            Exp::List(l) => {
                let mut out = "(".to_owned();
                display_into(&l.head, &mut out);
                out.append(")");
                proof {
                    assert(out@ =~= "("@ + display_items(exps_deep(*l)) + ")"@);
                }
                out
            },
        }
    }

    /// An independent handle to the same value, in constant time: lists and
    /// closure bodies are shared, never copied.
    pub fn duplicate(&self) -> (r: Exp)
        ensures
            r.deep_view() == self.deep_view(),
    {
        match self {
            Exp::Ident(s) => Exp::Ident(s.clone()),
            Exp::Number(bits) => Exp::Number(*bits),
            Exp::Bool(b) => Exp::Bool(*b),
            Exp::SpecialForm(f) => Exp::SpecialForm(*f),
            Exp::Function(f) => Exp::Function(f.duplicate()),
            Exp::List(l) => Exp::List(l.duplicate()),
        }
    }
}

/// Binds parameter names to argument values, in order, into the map `m`.
/// Runs out of arguments before parameters: an arity error. A parameter name
/// already bound (a duplicate parameter): a redefinition error. Either way
/// the map keeps what was bound up to the failure, exactly as the frame does.
/// Arguments beyond the parameters are silently ignored.
pub open spec fn bind_spec(
    params: Seq<Seq<char>>,
    args: Seq<ExpV>,
    m: Map<Seq<char>, ExpV>,
) -> (Result<(), Error>, Map<Seq<char>, ExpV>)
    decreases params.len(),
{
    if params.len() == 0 {
        (Ok(()), m)
    } else if args.len() == 0 {
        (Err(Error::ArityError), m)
    } else if m.dom().contains(params[0]) {
        (Err(Error::AlreadyDefined), m)
    } else {
        bind_spec(params.drop_first(), args.drop_first(), m.insert(params[0], args[0]))
    }
}

/// What invoking a callable on evaluated arguments yields, and how it leaves
/// the environment. A native primitive computes from the arguments alone. A
/// closure allocates one fresh frame under its captured frame, binds its
/// parameters there, and evaluates its body against that frame; the caller's
/// current frame is restored afterwards. The fresh frame stays in the arena
/// whether or not binding succeeded.
pub open spec fn apply_spec(f: FunctionV, args: Seq<ExpV>, env: EnvV, fuel: nat) -> (Result<
    ExpV,
    Error,
>, EnvV)
    decreases fuel, 0int,
{
    if fuel == 0 {
        (Err(Error::DepthExceeded), env)
    } else {
        match f {
            FunctionV::Native(n) => (crate::math::native_spec(n, args), env),
            FunctionV::Lambda(lam) => {
                let child = env.frames.len() as int;
                let (rb, m) = bind_spec(lam.params, args, Map::empty());
                let envb = EnvV {
                    frames: env.frames.push(FrameV { bindings: m, parent: Some(lam.closing_env) }),
                    current: env.current,
                };
                match rb {
                    Err(err) => (Err(err), envb),
                    Ok(_) => {
                        let (r, env2) = crate::eval_spec(
                            *lam.body,
                            EnvV { frames: envb.frames, current: child },
                            (fuel - 1) as nat,
                        );
                        (r, EnvV { frames: env2.frames, current: env.current })
                    },
                }
            },
        }
    }
}

/// Binds the parameter names from position `i` on to the arguments, one by
/// one, into the current frame.
fn bind_params(params: &Vec<String>, i: usize, args: &List<Exp>, env: &mut Environment) -> (r:
    Result<(), Error>)
    requires
        old(env).wf(),
        i <= params@.len(),
        expv_wf(ExpV::List(exps_deep(*args)), old(env)@.frames.len() as int),
    ensures
        final(env).wf(),
        final(env)@.frames.len() == old(env)@.frames.len(),
        final(env)@.current == old(env)@.current,
        ({
            let cur = old(env)@.current;
            let frame = old(env)@.frames[cur];
            let (rb, m) = bind_spec(
                params.deep_view().skip(i as int),
                exps_deep(*args),
                frame.bindings,
            );
            r == rb && final(env)@.frames == old(env)@.frames.update(
                cur,
                FrameV { bindings: m, parent: frame.parent },
            )
        }),
    decreases params@.len() - i,
{
    broadcast use lemma_env_wf;

    let ghost cur = old(env)@.current;
    let ghost frame0 = old(env)@.frames[cur];
    if i == params.len() {
        proof {
            assert(FrameV { bindings: frame0.bindings, parent: frame0.parent } =~= frame0);
            assert(env@.frames =~= old(env)@.frames.update(
                cur,
                FrameV { bindings: frame0.bindings, parent: frame0.parent },
            ));
        }
        Ok(())
    } else {
        proof {
            lemma_exps_deep(args);
            assert(params.deep_view().skip(i as int)[0] == params.deep_view()[i as int]);
        }
        match args.head() {
            None => {
                proof {
                    assert(exps_deep(*args).len() == 0);
                    assert(FrameV { bindings: frame0.bindings, parent: frame0.parent } =~= frame0);
                    assert(env@.frames =~= old(env)@.frames.update(
                        cur,
                        FrameV { bindings: frame0.bindings, parent: frame0.parent },
                    ));
                }
                Err(Error::ArityError)
            },
            Some(arg) => {
                proof {
                    assert(exps_deep(*args)[0] == args@[0].deep_view());
                    assert(exps_deep(*args)[0] == arg.deep_view());
                    assert(expv_wf(arg.deep_view(), old(env)@.frames.len() as int)) by {
                        lemma_expv_wf_list(exps_deep(*args), old(env)@.frames.len() as int, 0);
                    }
                }
                let name = &params[i];
                match env.define(name.as_str(), arg) {
                    Err(e) => {
                        proof {
                            assert(FrameV { bindings: frame0.bindings, parent: frame0.parent }
                                =~= frame0);
                            assert(env@.frames =~= old(env)@.frames.update(
                                cur,
                                FrameV { bindings: frame0.bindings, parent: frame0.parent },
                            ));
                        }
                        Err(e)
                    },
                    Ok(_) => {
                        let t = args.tail().unwrap();
                        proof {
                            lemma_exps_deep_drop(args, &t);
                            assert(params.deep_view().skip(i as int).drop_first()
                                =~= params.deep_view().skip(i as int + 1));
                            let n = old(env)@.frames.len() as int;
                            assert forall|j: int|
                                0 <= j < exps_deep(t).len() implies expv_wf(
                                #[trigger] exps_deep(t)[j],
                                n,
                            ) by {
                                assert(exps_deep(t)[j] == exps_deep(*args)[j + 1]);
                                lemma_expv_wf_list(exps_deep(*args), n, j + 1);
                            }
                            lemma_expv_wf_list_intro(exps_deep(t), n);
                        }
                        let r = bind_params(params, i + 1, &t, env);
                        proof {
                            let m1 = frame0.bindings.insert(
                                params.deep_view()[i as int],
                                arg.deep_view(),
                            );
                            let (rb2, m2) = bind_spec(
                                params.deep_view().skip(i as int + 1),
                                exps_deep(t),
                                m1,
                            );
                            assert(env@.frames =~= old(env)@.frames.update(
                                cur,
                                FrameV { bindings: m2, parent: frame0.parent },
                            ));
                        }
                        r
                    },
                }
            },
        }
    }
}

impl Function {
    /// Invokes the callable on an evaluated argument list. A native primitive
    /// computes directly from the arguments; a closure extends its captured
    /// environment with one fresh frame, binds each parameter name in order
    /// to the corresponding argument, and evaluates its body against that
    /// frame. `fuel` bounds the nesting depth of the evaluation.
    ///
    /// Binding is positional: too few arguments raise an arity error, while
    /// extra arguments are silently dropped. The permissive half of that
    /// asymmetry is kept deliberately, but is worth revisiting rather than
    /// relying on.
    pub fn call(&self, args: &List<Exp>, env: &mut Environment, fuel: u64) -> (r: Result<
        Exp,
        Error,
    >)
        requires
            old(env).wf(),
            expv_wf(ExpV::Function(self.deep_view()), old(env)@.frames.len() as int),
            expv_wf(ExpV::List(exps_deep(*args)), old(env)@.frames.len() as int),
        ensures
            final(env).wf(),
            old(env)@.frames.len() <= final(env)@.frames.len(),
            final(env)@.current == old(env)@.current,
            res_deep(r) == apply_spec(
                self.deep_view(),
                exps_deep(*args),
                old(env)@,
                fuel as nat,
            ).0,
            final(env)@ == apply_spec(self.deep_view(), exps_deep(*args), old(env)@, fuel as nat).1,
            r matches Ok(e) ==> expv_wf(e.deep_view(), final(env)@.frames.len() as int),
        decreases fuel, 0int,
    {
        broadcast use lemma_env_wf;

        if fuel == 0 {
            return Err(Error::DepthExceeded);
        }
        match self {
            Function::Native(n) => {
                let res = match n {
                    NativeFn::Add => crate::math::add(args),
                    NativeFn::Subtract => crate::math::subtract(args),
                    NativeFn::Multiply => crate::math::multiply(args),
                    NativeFn::Equals => crate::math::equals(args),
                };
                match res {
                    Ok(e) => {
                        proof {
                            assert(expv_wf(e.deep_view(), env@.frames.len() as int));
                        }
                        Ok(e)
                    },
                    Err(e) => Err(e),
                }
            },
            Function::Lambda(lam) => {
                let ghost vs = exps_deep(*args);
                let ghost oldv = old(env)@;
                let saved = env.current();
                env.set_current(lam.closing_env);
                let child = env.extend();
                proof {
                    lemma_expv_wf_mono(
                        ExpV::List(vs),
                        oldv.frames.len() as int,
                        env@.frames.len() as int,
                    );
                }
                let rb = bind_params(&lam.params, 0, args, env);
                proof {
                    assert(lam.params.deep_view().skip(0) =~= lam.params.deep_view());
                }
                match rb {
                    Err(e) => {
                        env.set_current(saved);
                        proof {
                            let (rbs, m) = bind_spec(lam.deep_view().params, vs, Map::empty());
                            assert(env@.frames =~= oldv.frames.push(
                                FrameV { bindings: m, parent: Some(lam.closing_env as int) },
                            ));
                        }
                        Err(e)
                    },
                    Ok(_) => {
                        proof {
                            let (rbs, m) = bind_spec(lam.deep_view().params, vs, Map::empty());
                            assert(env@.frames =~= oldv.frames.push(
                                FrameV { bindings: m, parent: Some(lam.closing_env as int) },
                            ));
                            lemma_expv_wf_mono(
                                ExpV::Function(self.deep_view()),
                                oldv.frames.len() as int,
                                env@.frames.len() as int,
                            );
                        }
                        let r = crate::eval_with_fuel(&*lam.body, env, fuel - 1);
                        env.set_current(saved);
                        r
                    },
                }
            },
        }
    }

    /// An independent handle to the same callable, in constant time.
    pub fn duplicate(&self) -> (r: Function)
        ensures
            r.deep_view() == self.deep_view(),
    {
        match self {
            Function::Native(n) => Function::Native(*n),
            Function::Lambda(l) => {
                let params = l.params.clone();
                proof {
                    assert forall|i: int| 0 <= i < params.len() implies params[i] == l.params[i] by {
                        assert(vstd::pervasive::cloned::<String>(l.params[i], params[i]));
                    }
                    assert(params.deep_view() =~= l.params.deep_view());
                }
                Function::Lambda(
                    Lambda {
                        closing_env: l.closing_env,
                        params,
                        body: rc_clone(&l.body),
                    },
                )
            },
        }
    }
}

} // verus!

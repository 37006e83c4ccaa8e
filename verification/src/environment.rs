//! The environment: a chain of binding frames with parent links.
//!
//! Frames live in an arena owned by the [`Environment`] value, and a frame is
//! designated by its index. Parent links always point at strictly smaller
//! indices, so chains are acyclic and walking them terminates. Closures
//! capture a frame by index; since the arena only ever grows, a captured
//! index stays valid, and a binding mutated later is seen through every
//! handle that reaches its frame — exactly the aliasing a closure needs.
//!
//! One frame index is distinguished as *current*: the frame against which
//! `define`, `assign` and `lookup` act. The ghost model of an environment is
//! the sequence of its frames, each a map from identifier to expression view
//! plus a parent index, together with the current index.

use crate::error::Error;
use crate::expression::Exp;
use crate::expression::ExpV;
use crate::expression::FunctionV;
use crate::expression::NativeFn;
use crate::str_eq;
use vstd::prelude::*;

verus! {

/// The ghost abstraction of one binding frame.
#[verifier::ext_equal]
pub ghost struct FrameV {
    pub bindings: Map<Seq<char>, ExpV>,
    pub parent: Option<int>,
}

/// The ghost abstraction of a whole environment.
#[verifier::ext_equal]
pub ghost struct EnvV {
    pub frames: Seq<FrameV>,
    pub current: int,
}

/// Whether an expression view only mentions frames below `n`: every closure
/// reachable inside it captures a frame index smaller than `n`.
pub open spec fn expv_wf(v: ExpV, n: int) -> bool
    decreases v,
{
    match v {
        ExpV::Function(FunctionV::Native(_)) => true,
        ExpV::Function(FunctionV::Lambda(l)) => 0 <= l.closing_env < n && expv_wf(*l.body, n),
        ExpV::List(elems) => forall|i: int| 0 <= i < elems.len() ==> expv_wf(#[trigger] elems[i], n),
        _ => true,
    }
}

/// Each element of a well-formed list view is itself well formed.
pub proof fn lemma_expv_wf_list(elems: Seq<ExpV>, n: int, i: int)
    requires
        expv_wf(ExpV::List(elems), n),
        0 <= i < elems.len(),
    ensures
        expv_wf(elems[i], n),
{
    let v = ExpV::List(elems);
    match v {
        ExpV::List(es) => {
            assert(es == elems);
            assert(expv_wf(es[i], n));
        },
        _ => {},
    }
}

/// A list view of well-formed elements is well formed.
pub proof fn lemma_expv_wf_list_intro(elems: Seq<ExpV>, n: int)
    requires
        forall|i: int| 0 <= i < elems.len() ==> expv_wf(#[trigger] elems[i], n),
    ensures
        expv_wf(ExpV::List(elems), n),
{
    let v = ExpV::List(elems);
    match v {
        ExpV::List(es) => {
            assert(es == elems);
            assert forall|i: int| 0 <= i < es.len() implies expv_wf(#[trigger] es[i], n) by {
                assert(expv_wf(elems[i], n));
            }
        },
        _ => {},
    }
}

/// A well-formed expression view stays well formed as the arena grows.
pub proof fn lemma_expv_wf_mono(v: ExpV, n: int, m: int)
    requires
        expv_wf(v, n),
        n <= m,
    ensures
        expv_wf(v, m),
    decreases v,
{
    match v {
        ExpV::Function(FunctionV::Lambda(l)) => {
            lemma_expv_wf_mono(*l.body, n, m);
        },
        ExpV::List(elems) => {
            assert forall|i: int| 0 <= i < elems.len() implies expv_wf(#[trigger] elems[i], m) by {
                lemma_expv_wf_mono(elems[i], n, m);
            }
        },
        _ => {},
    }
}

/// Whether a frame's parent link points strictly below the frame's own index.
pub open spec fn frame_parent_wf(f: FrameV, i: int) -> bool {
    match f.parent {
        None => true,
        Some(p) => 0 <= p < i,
    }
}

/// Well-formedness of an environment model: the current index designates a
/// frame, parent links point strictly downward, and every stored expression
/// only mentions frames of the arena.
pub open spec fn env_wf(env: EnvV) -> bool {
    &&& 0 <= env.current < env.frames.len()
    &&& (forall|i: int| 0 <= i < env.frames.len() ==> frame_parent_wf(#[trigger] env.frames[i], i))
    &&& (forall|i: int, name: Seq<char>|
        0 <= i < env.frames.len() && #[trigger] env.frames[i].bindings.dom().contains(name)
            ==> expv_wf(env.frames[i].bindings[name], env.frames.len() as int))
}

/// The index of the nearest frame, from `frame` outward along parent links,
/// that binds `name`; nothing if no frame of the chain binds it.
pub open spec fn chain_find(env: EnvV, frame: int, name: Seq<char>) -> Option<int>
    decreases frame,
    when 0 <= frame < env.frames.len() && env_wf(env)
{
    if env.frames[frame].bindings.dom().contains(name) {
        Some(frame)
    } else {
        match env.frames[frame].parent {
            None => None,
            Some(p) => chain_find(env, p, name),
        }
    }
}

/// The value bound to `name` by the nearest frame of the chain starting at
/// `frame`, or nothing if the whole chain leaves it unbound.
pub open spec fn lookup_in(env: EnvV, frame: int, name: Seq<char>) -> Option<ExpV> {
    match chain_find(env, frame, name) {
        None => None,
        Some(i) => Some(env.frames[i].bindings[name]),
    }
}

/// One binding frame: an association vector with pairwise distinct keys, and
/// an optional parent index.
struct Frame {
    bindings: Vec<(String, Exp)>,
    parent: Option<usize>,
}

/// A chain of binding frames; see the module documentation.
pub struct Environment {
    frames: Vec<Frame>,
    current: usize,
}

/// The map an association vector denotes; a later entry would shadow an
/// earlier one, but well-formed frames have pairwise distinct keys.
spec fn assoc_view(s: Seq<(String, Exp)>) -> Map<Seq<char>, ExpV>
    decreases s.len(),
{
    if s.len() == 0 {
        Map::empty()
    } else {
        assoc_view(s.drop_last()).insert(s.last().0@, s.last().1.deep_view())
    }
}

spec fn keys_unique(s: Seq<(String, Exp)>) -> bool {
    forall|i: int, j: int| 0 <= i < j < s.len() ==> s[i].0@ != s[j].0@
}

impl View for Frame {
    type V = FrameV;

    closed spec fn view(&self) -> FrameV {
        FrameV {
            bindings: assoc_view(self.bindings@),
            parent: match self.parent {
                None => None,
                Some(p) => Some(p as int),
            },
        }
    }
}

impl View for Environment {
    type V = EnvV;

    closed spec fn view(&self) -> EnvV {
        EnvV {
            frames: Seq::new(self.frames@.len(), |i: int| self.frames@[i]@),
            current: self.current as int,
        }
    }
}

proof fn lemma_assoc_contains(s: Seq<(String, Exp)>, name: Seq<char>)
    ensures
        assoc_view(s).dom().contains(name) <==> (exists|i: int|
            0 <= i < s.len() && s[i].0@ == name),
    decreases s.len(),
{
    if s.len() > 0 {
        lemma_assoc_contains(s.drop_last(), name);
        if s.last().0@ == name {
            assert(s[s.len() - 1].0@ == name);
        } else if assoc_view(s).dom().contains(name) {
            let i = choose|i: int| 0 <= i < s.drop_last().len() && s.drop_last()[i].0@ == name;
            assert(s[i].0@ == name);
        } else if exists|i: int| 0 <= i < s.len() && s[i].0@ == name {
            let i = choose|i: int| 0 <= i < s.len() && s[i].0@ == name;
            assert(s.drop_last()[i].0@ == name);
        }
    }
}

proof fn lemma_assoc_get(s: Seq<(String, Exp)>, i: int)
    requires
        keys_unique(s),
        0 <= i < s.len(),
    ensures
        assoc_view(s).dom().contains(s[i].0@),
        assoc_view(s)[s[i].0@] == s[i].1.deep_view(),
    decreases s.len(),
{
    lemma_assoc_contains(s, s[i].0@);
    if i == s.len() - 1 {
    } else {
        assert(s.drop_last()[i] == s[i]);
        lemma_assoc_get(s.drop_last(), i);
        assert(s.last().0@ != s[i].0@);
    }
}

proof fn lemma_assoc_push(s: Seq<(String, Exp)>, p: (String, Exp))
    ensures
        assoc_view(s.push(p)) == assoc_view(s).insert(p.0@, p.1.deep_view()),
{
    assert(s.push(p).drop_last() =~= s);
    assert(s.push(p).last() == p);
}

proof fn lemma_assoc_update(s: Seq<(String, Exp)>, i: int, p: (String, Exp))
    requires
        keys_unique(s),
        0 <= i < s.len(),
        p.0@ == s[i].0@,
    ensures
        assoc_view(s.update(i, p)) == assoc_view(s).insert(p.0@, p.1.deep_view()),
        keys_unique(s.update(i, p)),
    decreases s.len(),
{
    let t = s.update(i, p);
    assert forall|a: int, b: int| 0 <= a < b < t.len() implies t[a].0@ != t[b].0@ by {
        assert(s[a].0@ != s[b].0@);
    }
    if i == s.len() - 1 {
        assert(t.drop_last() =~= s.drop_last());
        assert(t.last() == p);
        assert(assoc_view(s).insert(p.0@, p.1.deep_view()) =~= assoc_view(s.drop_last()).insert(
            p.0@,
            p.1.deep_view(),
        ));
    } else {
        assert(t.drop_last() =~= s.drop_last().update(i, p));
        assert(t.last() == s.last());
        assert forall|a: int, b: int|
            0 <= a < b < s.drop_last().len() implies s.drop_last()[a].0@ != s.drop_last()[b].0@ by {
            assert(s[a].0@ != s[b].0@);
        }
        assert(s.drop_last()[i] == s[i]);
        lemma_assoc_update(s.drop_last(), i, p);
        assert(s.last().0@ != p.0@);
        assert(assoc_view(t) =~= assoc_view(s).insert(p.0@, p.1.deep_view()));
    }
}

/// A well-formed environment has a well-formed ghost model.
pub broadcast proof fn lemma_env_wf(e: &Environment)
    ensures
        #[trigger] e.wf() ==> env_wf(e@),
{
}

impl Environment {
    /// The representation invariant: the current index designates a frame,
    /// every frame's keys are pairwise distinct, and the ghost model is well
    /// formed.
    pub closed spec fn wf(&self) -> bool {
        &&& self.current < self.frames@.len()
        &&& (forall|i: int|
            0 <= i < self.frames@.len() ==> keys_unique(#[trigger] self.frames@[i].bindings@))
        &&& env_wf(self@)
    }

    /// A fresh root frame: no parent, no bindings.
    pub fn new() -> (r: Self)
        ensures
            r.wf(),
            r@.current == 0,
            r@.frames.len() == 1,
            r@.frames[0].parent is None,
            r@.frames[0].bindings == Map::<Seq<char>, ExpV>::empty(),
    {
        let r = Environment {
            frames: vec![Frame { bindings: Vec::new(), parent: None }],
            current: 0,
        };
        proof {
            assert(r@.frames[0] == r.frames@[0]@);
            assert(r.frames@[0].bindings@.len() == 0);
        }
        r
    }

    /// The index of the frame the environment currently acts on.
    pub fn current(&self) -> (r: usize)
        ensures
            r as int == self@.current,
    {
        self.current
    }

    /// The parent of the current frame, or nothing at the root.
    pub fn parent(&self) -> (r: Option<usize>)
        requires
            self.wf(),
        ensures
            match r {
                Some(p) => self@.frames[self@.current].parent == Some(p as int),
                None => self@.frames[self@.current].parent is None,
            },
    {
        proof {
            assert(self@.frames[self.current as int] == self.frames@[self.current as int]@);
        }
        let fr = &self.frames[self.current];
        match fr.parent {
            Some(p) => Some(p),
            None => None,
        }
    }

    /// Allocates a fresh, empty child of the current frame, makes it current,
    /// and returns its index. No existing frame is touched.
    pub fn extend(&mut self) -> (child: usize)
        requires
            old(self).wf(),
        ensures
            final(self).wf(),
            child as int == old(self)@.frames.len(),
            final(self)@.frames == old(self)@.frames.push(
                FrameV {
                    bindings: Map::<Seq<char>, ExpV>::empty(),
                    parent: Some(old(self)@.current),
                },
            ),
            final(self)@.current == child as int,
    {
        let child = self.frames.len();
        let parent = self.current;
        self.frames.push(Frame { bindings: Vec::new(), parent: Some(parent) });
        self.current = child;
        proof {
            let newv = self@;
            let oldv = old(self)@;
            assert forall|i: int| 0 <= i < newv.frames.len() implies newv.frames[i]
                == if i < oldv.frames.len() {
                oldv.frames[i]
            } else {
                FrameV {
                    bindings: Map::<Seq<char>, ExpV>::empty(),
                    parent: Some(oldv.current),
                }
            } by {
                if i == oldv.frames.len() {
                    assert(self.frames@[i].bindings@.len() == 0);
                }
            }
            assert(newv.frames =~= oldv.frames.push(
                FrameV {
                    bindings: Map::<Seq<char>, ExpV>::empty(),
                    parent: Some(oldv.current),
                },
            ));
            assert forall|i: int, name: Seq<char>|
                0 <= i < newv.frames.len() && #[trigger] newv.frames[i].bindings.dom().contains(
                    name,
                ) implies expv_wf(newv.frames[i].bindings[name], newv.frames.len() as int) by {
                if i < oldv.frames.len() {
                    lemma_expv_wf_mono(
                        newv.frames[i].bindings[name],
                        oldv.frames.len() as int,
                        newv.frames.len() as int,
                    );
                }
            }
        }
        child
    }

    /// Moves the environment's point of action to an existing frame.
    pub(crate) fn set_current(&mut self, frame: usize)
        requires
            old(self).wf(),
            frame < old(self)@.frames.len(),
        ensures
            final(self).wf(),
            final(self)@.frames == old(self)@.frames,
            final(self)@.current == frame as int,
    {
        self.current = frame;
        proof {
            assert(final(self)@.frames =~= old(self)@.frames);
        }
    }

    /// The position of `ident` in the frame's association vector, if bound
    /// directly there.
    fn find_in_frame(&self, frame: usize, ident: &str) -> (r: Option<usize>)
        requires
            self.wf(),
            frame < self@.frames.len(),
        ensures
            match r {
                Some(i) => i < self.frames@[frame as int].bindings@.len() && self.frames@[frame as int].bindings@[i as int].0@ == ident@,
                None => forall|k: int|
                    0 <= k < self.frames@[frame as int].bindings@.len()
                        ==> self.frames@[frame as int].bindings@[k].0@ != ident@,
            },
    {
        proof {
            assert(self@.frames.len() == self.frames@.len());
        }
        let fr = &self.frames[frame];
        let n = fr.bindings.len();
        let mut i: usize = 0;
        while i < n
            invariant
                i <= n,
                *fr == self.frames@[frame as int],
                n == fr.bindings@.len(),
                forall|k: int| 0 <= k < i ==> fr.bindings@[k].0@ != ident@,
            decreases n - i,
        {
            let entry = &fr.bindings[i];
            if str_eq(entry.0.as_str(), ident) {
                return Some(i);
            }
            i = i + 1;
        }
        None
    }

    /// Whether the given frame directly binds `ident`, on the ghost model.
    proof fn lemma_frame_contains(&self, frame: int, ident: Seq<char>)
        requires
            self.wf(),
            0 <= frame < self@.frames.len(),
        ensures
            self@.frames[frame].bindings.dom().contains(ident) <==> (exists|i: int|
                0 <= i < self.frames@[frame].bindings@.len() && self.frames@[frame].bindings@[i].0@
                    == ident),
    {
        assert(self@.frames[frame] == self.frames@[frame]@);
        lemma_assoc_contains(self.frames@[frame].bindings@, ident);
    }

    /// Binds `ident` to `val` in the current frame. Fails, changing nothing,
    /// if the current frame already binds `ident` directly; bindings of other
    /// frames are invisible to `define`, which is what permits shadowing.
    pub fn define(&mut self, ident: &str, val: &Exp) -> (r: Result<(), Error>)
        requires
            old(self).wf(),
            expv_wf(val.deep_view(), old(self)@.frames.len() as int),
        ensures
            final(self).wf(),
            final(self)@.current == old(self)@.current,
            final(self)@.frames.len() == old(self)@.frames.len(),
            ({
                let cur = old(self)@.current;
                let frame = old(self)@.frames[cur];
                if frame.bindings.dom().contains(ident@) {
                    r == Err::<(), Error>(Error::AlreadyDefined) && final(self)@ == old(self)@
                } else {
                    r == Ok::<(), Error>(()) && final(self)@.frames == old(self)@.frames.update(
                        cur,
                        FrameV {
                            bindings: frame.bindings.insert(ident@, val.deep_view()),
                            parent: frame.parent,
                        },
                    )
                }
            }),
    {
        let cur = self.current;
        proof {
            self.lemma_frame_contains(cur as int, ident@);
        }
        match self.find_in_frame(cur, ident) {
            Some(_) => Err(Error::AlreadyDefined),
            None => {
                let ghost oldv = self@;
                let fr = &mut self.frames[cur];
                let ghost oldfr = *fr;
                fr.bindings.push((ident.to_owned(), val.duplicate()));
                proof {
                    lemma_assoc_push(oldfr.bindings@, (final(fr)).bindings@.last());
                    assert((final(fr))@.bindings == oldfr@.bindings.insert(
                        ident@,
                        val.deep_view(),
                    ));
                    assert(keys_unique((final(fr)).bindings@)) by {
                        lemma_assoc_contains(oldfr.bindings@, ident@);
                    }
                    let newv = self@;
                    assert(newv.frames =~= oldv.frames.update(
                        cur as int,
                        FrameV {
                            bindings: oldv.frames[cur as int].bindings.insert(
                                ident@,
                                val.deep_view(),
                            ),
                            parent: oldv.frames[cur as int].parent,
                        },
                    ));
                    assert forall|i: int, name: Seq<char>|
                        0 <= i < newv.frames.len()
                            && #[trigger] newv.frames[i].bindings.dom().contains(name)
                        implies expv_wf(newv.frames[i].bindings[name], newv.frames.len() as int) by {
                        if i == cur as int && name == ident@ {
                        } else {
                            assert(oldv.frames[i].bindings.dom().contains(name));
                        }
                    }
                }
                Ok(())
            },
        }
    }

    fn lookup_from(&self, frame: usize, ident: &str) -> (r: Option<Exp>)
        requires
            self.wf(),
            frame < self@.frames.len(),
        ensures
            match r {
                Some(e) => lookup_in(self@, frame as int, ident@) == Some(e.deep_view()) && expv_wf(
                    e.deep_view(),
                    self@.frames.len() as int,
                ),
                None => lookup_in(self@, frame as int, ident@) is None,
            },
        decreases frame,
    {
        proof {
            self.lemma_frame_contains(frame as int, ident@);
        }
        match self.find_in_frame(frame, ident) {
            Some(i) => {
                proof {
                    lemma_assoc_get(self.frames@[frame as int].bindings@, i as int);
                    assert(self@.frames[frame as int] == self.frames@[frame as int]@);
                }
                let fr = &self.frames[frame];
                let entry = &fr.bindings[i];
                Some(entry.1.duplicate())
            },
            None => {
                proof {
                    assert(self@.frames[frame as int] == self.frames@[frame as int]@);
                }
                let fr = &self.frames[frame];
                match fr.parent {
                    Some(p) => self.lookup_from(p, ident),
                    None => None,
                }
            },
        }
    }

    /// The value the chain binds `ident` to, from the nearest binding frame,
    /// or nothing if the identifier is undefined along the whole chain.
    pub fn lookup(&self, ident: &str) -> (r: Option<Exp>)
        requires
            self.wf(),
        ensures
            match r {
                Some(e) => lookup_in(self@, self@.current, ident@) == Some(e.deep_view())
                    && expv_wf(e.deep_view(), self@.frames.len() as int),
                None => lookup_in(self@, self@.current, ident@) is None,
            },
    {
        self.lookup_from(self.current, ident)
    }

    fn assign_from(&mut self, frame: usize, ident: &str, val: &Exp) -> (r: Result<(), Error>)
        requires
            old(self).wf(),
            frame < old(self)@.frames.len(),
            expv_wf(val.deep_view(), old(self)@.frames.len() as int),
        ensures
            final(self).wf(),
            final(self)@.current == old(self)@.current,
            final(self)@.frames.len() == old(self)@.frames.len(),
            ({
                match chain_find(old(self)@, frame as int, ident@) {
                    None => r == Err::<(), Error>(Error::UndefinedIdentifier) && final(self)@
                        == old(self)@,
                    Some(fi) => {
                        let fv = old(self)@.frames[fi];
                        r == Ok::<(), Error>(()) && final(self)@.frames
                            == old(self)@.frames.update(
                            fi,
                            FrameV {
                                bindings: fv.bindings.insert(ident@, val.deep_view()),
                                parent: fv.parent,
                            },
                        )
                    },
                }
            }),
        decreases frame,
    {
        proof {
            self.lemma_frame_contains(frame as int, ident@);
        }
        match self.find_in_frame(frame, ident) {
            Some(i) => {
                let ghost oldv = self@;
                let fr = &mut self.frames[frame];
                let ghost oldfr = *fr;
                let key = ident.to_owned();
                fr.bindings[i] = (key, val.duplicate());
                proof {
                    lemma_assoc_update(
                        oldfr.bindings@,
                        i as int,
                        (final(fr)).bindings@[i as int],
                    );
                    let newv = self@;
                    assert(newv.frames =~= oldv.frames.update(
                        frame as int,
                        FrameV {
                            bindings: oldv.frames[frame as int].bindings.insert(
                                ident@,
                                val.deep_view(),
                            ),
                            parent: oldv.frames[frame as int].parent,
                        },
                    ));
                    assert forall|j: int, name: Seq<char>|
                        0 <= j < newv.frames.len()
                            && #[trigger] newv.frames[j].bindings.dom().contains(name)
                        implies expv_wf(newv.frames[j].bindings[name], newv.frames.len() as int) by {
                        if j == frame as int && name == ident@ {
                        } else {
                            assert(oldv.frames[j].bindings.dom().contains(name));
                        }
                    }
                }
                Ok(())
            },
            None => {
                proof {
                    assert(self@.frames[frame as int] == self.frames@[frame as int]@);
                }
                let parent = self.frames[frame].parent;
                match parent {
                    Some(p) => self.assign_from(p, ident, val),
                    None => Err(Error::UndefinedIdentifier),
                }
            },
        }
    }

    /// Overwrites the binding of `ident` in the nearest frame of the chain
    /// that already binds it. Never creates a binding: if no frame of the
    /// chain binds `ident`, fails and changes nothing.
    pub fn assign(&mut self, ident: &str, val: &Exp) -> (r: Result<(), Error>)
        requires
            old(self).wf(),
            expv_wf(val.deep_view(), old(self)@.frames.len() as int),
        ensures
            final(self).wf(),
            final(self)@.current == old(self)@.current,
            final(self)@.frames.len() == old(self)@.frames.len(),
            ({
                match chain_find(old(self)@, old(self)@.current, ident@) {
                    None => r == Err::<(), Error>(Error::UndefinedIdentifier) && final(self)@
                        == old(self)@,
                    Some(fi) => {
                        let fv = old(self)@.frames[fi];
                        r == Ok::<(), Error>(()) && final(self)@.frames
                            == old(self)@.frames.update(
                            fi,
                            FrameV {
                                bindings: fv.bindings.insert(ident@, val.deep_view()),
                                parent: fv.parent,
                            },
                        )
                    },
                }
            }),
    {
        let cur = self.current;
        self.assign_from(cur, ident, val)
    }
}

/// The bit pattern of the single-precision value five.
pub const FIVE_BITS: u32 = 0x40A0_0000;

/// What the global environment binds: the arithmetic primitives, and the
/// numeric constant `five`.
pub open spec fn global_bindings() -> Map<Seq<char>, ExpV> {
    Map::<Seq<char>, ExpV>::empty().insert(
        "+"@,
        ExpV::Function(FunctionV::Native(NativeFn::Add)),
    ).insert("-"@, ExpV::Function(FunctionV::Native(NativeFn::Subtract))).insert(
        "*"@,
        ExpV::Function(FunctionV::Native(NativeFn::Multiply)),
    ).insert("five"@, ExpV::Number(FIVE_BITS))
}

/// A fresh root environment pre-populated with the global bindings.
pub fn build_global_env() -> (r: Environment)
    ensures
        r.wf(),
        r@.current == 0,
        r@.frames.len() == 1,
        r@.frames[0].parent is None,
        r@.frames[0].bindings == global_bindings(),
{
    proof {
        reveal_strlit("+");
        reveal_strlit("-");
        reveal_strlit("*");
        reveal_strlit("five");
    }
    let mut env = Environment::new();
    let plus = Exp::Function(crate::expression::Function::Native(NativeFn::Add));
    let minus = Exp::Function(crate::expression::Function::Native(NativeFn::Subtract));
    let times = Exp::Function(crate::expression::Function::Native(NativeFn::Multiply));
    let five = Exp::Number(FIVE_BITS);
    proof {
        assert(plus.deep_view() == ExpV::Function(FunctionV::Native(NativeFn::Add)));
        assert(expv_wf(ExpV::Function(FunctionV::Native(NativeFn::Add)), 1));
        assert(minus.deep_view() == ExpV::Function(FunctionV::Native(NativeFn::Subtract)));
        assert(expv_wf(ExpV::Function(FunctionV::Native(NativeFn::Subtract)), 1));
        assert(times.deep_view() == ExpV::Function(FunctionV::Native(NativeFn::Multiply)));
        assert(expv_wf(ExpV::Function(FunctionV::Native(NativeFn::Multiply)), 1));
        assert(five.deep_view() == ExpV::Number(FIVE_BITS));
        assert(expv_wf(ExpV::Number(FIVE_BITS), 1));
        assert("+"@[0] == '+' && "+"@.len() == 1);
        assert("-"@[0] == '-' && "-"@.len() == 1);
        assert("*"@[0] == '*' && "*"@.len() == 1);
        assert("five"@.len() == 4);
        assert("+"@ != "-"@ && "+"@ != "*"@ && "+"@ != "five"@ && "-"@ != "*"@ && "-"@ != "five"@
            && "*"@ != "five"@);
    }
    let r1 = env.define("+", &plus);
    proof {
        assert(r1 is Ok);
    }
    let r2 = env.define("-", &minus);
    proof {
        assert(r2 is Ok);
    }
    let r3 = env.define("*", &times);
    proof {
        assert(r3 is Ok);
    }
    let r4 = env.define("five", &five);
    proof {
        assert(r4 is Ok);
        assert(env@.frames[0].bindings =~= global_bindings());
        assert(env@.frames =~= Seq::new(1, |i: int| env@.frames[0]));
    }
    env
}

} // verus!

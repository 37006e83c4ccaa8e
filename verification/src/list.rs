//! An immutable, structurally shared singly linked list.
//!
//! Lists are cons chains whose tails are shared through reference counting:
//! `prepend` allocates exactly one node and never touches the receiver, so any
//! number of lists may alias the same tail. The view of a list is the sequence
//! of its elements, head first.

use std::rc::Rc;
use vstd::prelude::*;

verus! {

#[derive(Clone, Debug)]
pub struct List<T> {
    pub(crate) head: Link<T>,
}

pub(crate) type Link<T> = Option<Rc<Node<T>>>;

#[derive(Debug)]
pub(crate) struct Node<T> {
    pub(crate) elem: T,
    pub(crate) next: Link<T>,
}

/// A cursor over the elements of a [`List`], front to back.
///
/// Iteration is restartable and side-effect free: the list is immutable, so a
/// fresh cursor obtained from [`List::iter`] always walks the same elements.
pub struct Iter<'a, T> {
    next: Option<&'a Node<T>>,
}

/// The elements reachable from a link, nearest first.
pub(crate) open spec fn link_view<T>(l: Link<T>) -> Seq<T>
    decreases l,
{
    match l {
        None => Seq::empty(),
        Some(node) => seq![(*node).elem] + link_view((*node).next),
    }
}

impl<T> View for List<T> {
    type V = Seq<T>;

    closed spec fn view(&self) -> Seq<T> {
        link_view(self.head)
    }
}

/// Relies on `Rc::clone`: the returned handle points at the very same node as
/// the argument, so in specifications the two are equal.
#[verifier::external_body]
pub(crate) fn rc_clone<T>(rc: &Rc<T>) -> (r: Rc<T>)
    ensures
        r == *rc,
{
    Rc::clone(rc)
}

/// A list's view is exactly the chain of its links.
pub(crate) broadcast proof fn lemma_list_view<T>(l: &List<T>)
    ensures
        #[trigger] l@ == link_view(l.head),
{
}

fn clone_link<T>(l: &Link<T>) -> (r: Link<T>)
    ensures
        r == *l,
{
    match l {
        Some(rc) => Some(rc_clone(rc)),
        None => None,
    }
}

impl<T> List<T> {
    /// The empty list.
    pub fn new() -> (r: Self)
        ensures
            r@ == Seq::<T>::empty(),
    {
        List { head: None }
    }

    /// Builds a list holding exactly the elements of `data`, in order.
    pub fn from_vec(data: Vec<T>) -> (r: Self)
        ensures
            r@ == data@,
    {
        let ghost full = data@;
        let mut data = data;
        let mut lst = Self::new();
        while data.len() > 0
            invariant
                data@.len() <= full.len(),
                data@ == full.subrange(0, data@.len() as int),
                lst@ == full.subrange(data@.len() as int, full.len() as int),
            decreases data@.len(),
        {
            let ghost n = data@.len() as int;
            let elem = data.pop().unwrap();
            lst = lst.prepend(elem);
            proof {
                assert(seq![full[n - 1]] + full.subrange(n, full.len() as int) =~= full.subrange(
                    n - 1,
                    full.len() as int,
                ));
            }
        }
        proof {
            assert(lst@ =~= full);
        }
        lst
    }

    /// The first element, if the list is not empty.
    pub fn head(&self) -> (r: Option<&T>)
        ensures
            match r {
                Some(e) => self@.len() > 0 && *e == self@[0],
                None => self@.len() == 0,
            },
    {
        match &self.head {
            Some(node) => Some(&(**node).elem),
            None => None,
        }
    }

    /// Everything after the first element, if the list is not empty.
    /// The result shares the receiver's tail nodes; nothing is copied.
    pub fn tail(&self) -> (r: Option<Self>)
        ensures
            match r {
                Some(t) => self@.len() > 0 && t@ == self@.drop_first(),
                None => self@.len() == 0,
            },
    {
        match &self.head {
            Some(node) => Some(List { head: clone_link(&(**node).next) }),
            None => None,
        }
    }

    /// A new list with `elem` in front of the receiver's elements.
    /// Runs in constant time: the receiver becomes the shared tail.
    pub fn prepend(&self, elem: T) -> (r: Self)
        ensures
            r@ == seq![elem] + self@,
    {
        List { head: Some(Rc::new(Node { elem, next: clone_link(&self.head) })) }
    }

    /// An independent handle to the same list, sharing every node.
    pub fn duplicate(&self) -> (r: Self)
        ensures
            r == *self,
    {
        List { head: clone_link(&self.head) }
    }

    /// A cursor positioned at the first element.
    pub fn iter(&self) -> (r: Iter<'_, T>)
        ensures
            r@ == self@,
    {
        Iter {
            next: match &self.head {
                Some(node) => Some(&**node),
                None => None,
            },
        }
    }
}

impl<'a, T> View for Iter<'a, T> {
    type V = Seq<T>;

    closed spec fn view(&self) -> Seq<T> {
        match self.next {
            None => Seq::empty(),
            Some(node) => seq![node.elem] + link_view(node.next),
        }
    }
}

impl<'a, T> Iter<'a, T> {
    /// Yields the element under the cursor and advances past it.
    pub fn next(&mut self) -> (r: Option<&'a T>)
        ensures
            match r {
                Some(e) => old(self)@.len() > 0 && *e == old(self)@[0] && final(self)@ == old(
                    self,
                )@.drop_first(),
                None => old(self)@.len() == 0 && final(self)@.len() == 0,
            },
    {
        match self.next {
            Some(node) => {
                self.next = match &node.next {
                    Some(rc) => Some(&**rc),
                    None => None,
                };
                Some(&node.elem)
            },
            None => None,
        }
    }
}

/// Prepending an element and then taking the head and the tail round-trips:
/// over the views that [`List::prepend`], [`List::head`] and [`List::tail`]
/// are specified by, the head of `l.prepend(x)` is `x` and its tail is `l`,
/// for every list and every element.
pub proof fn lemma_prepend_round_trip<T>(l: Seq<T>, x: T)
    ensures
        (seq![x] + l).len() > 0,
        (seq![x] + l)[0] == x,
        (seq![x] + l).drop_first() == l,
{
    assert((seq![x] + l).drop_first() =~= l);
}

impl<T> Drop for List<T> {
    /// Releases the spine iteratively so that dropping a long list does not
    /// recurse once per node. Ownership of each tail is taken back through
    /// `Rc::try_unwrap`; a tail that is still aliased by another list is left
    /// alone, since the other owner keeps it alive.
    #[verifier::external_body]
    fn drop(&mut self)
        opens_invariants none
        no_unwind
    {
        let mut head = self.head.take();
        while let Some(node) = head {
            if let Ok(mut node) = Rc::try_unwrap(node) {
                head = node.next.take();
            } else {
                break ;
            }
        }
    }
}

} // verus!

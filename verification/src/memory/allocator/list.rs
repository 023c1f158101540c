//! A persistent singly-linked list: lists share their tails, and no
//! operation changes a list that exists.

use vstd::prelude::*;
use std::sync::Arc;

verus! {

/// A list: empty, or a value in front of a shared list.
pub enum List<T> {
    Cons(T, Arc<List<T>>),
    Nil,
}

/// A walk along the cells of a list, front to back.
pub struct Iter<'a, T> {
    cur: &'a Arc<List<T>>,
}

/// Another handle to the list that `list` points to.
///
/// Wraps `Arc::clone`, which hands back a pointer to the same allocation: the
/// value seen through the result is the value seen through `list`.
#[verifier::external_body]
fn share<T>(list: &Arc<T>) -> (res: Arc<T>)
    ensures
        res == *list,
{
    Arc::clone(list)
}

impl<T: Copy> List<T> {
    /// The values of the list, front to back.
    pub open spec fn view(&self) -> Seq<T>
        decreases self,
    {
        match self {
            List::Cons(v, rest) => seq![*v] + rest@,
            List::Nil => seq![],
        }
    }

    /// The list with `v` in front of `list`.
    pub fn cons(v: T, list: &Arc<Self>) -> (r: Arc<Self>)
        ensures
            r@ == seq![v] + list@,
            *r == List::Cons(v, *list),
    {
        Arc::new(List::Cons(v, share(list)))
    }

    /// The empty list.
    pub fn nil() -> (r: Arc<Self>)
        ensures
            r@ == Seq::<T>::empty(),
            *r == List::<T>::Nil,
    {
        Arc::new(List::Nil)
    }

    /// The values of `list1` followed by those of `list2`. The result shares
    /// `list2`.
    pub fn append(list1: &Arc<Self>, list2: &Arc<Self>) -> (r: Arc<Self>)
        ensures
            r@ == list1@ + list2@,
        decreases list1,
    {
        match &**list1 {
            List::Nil => {
                assert(list1@ + list2@ =~= list2@);
                share(list2)
            },
            List::Cons(v, l) => {
                let rest = Self::append(l, list2);
                assert(seq![*v] + (l@ + list2@) =~= list1@ + list2@);
                Self::cons(*v, &rest)
            },
        }
    }

    /// The last cell of the list: the list of its last value alone. For the
    /// empty list this is the empty list.
    pub fn last<'a>(self: &'a Arc<Self>) -> (r: &'a Arc<Self>)
        ensures
            self@.len() == 0 ==> r@.len() == 0,
            self@.len() > 0 ==> r@ == seq![self@.last()],
        decreases self,
    {
        match &**self.cdr() {
            List::Nil => {
                proof {
                    match &**self {
                        List::Cons(v, rest) => {
                            assert(rest@ =~= Seq::<T>::empty());
                            assert(self@ =~= seq![*v]);
                        },
                        List::Nil => {},
                    }
                }
                self
            },
            List::Cons(_, _) => {
                proof {
                    match &**self {
                        List::Cons(v, rest) => {
                            assert(rest@.len() > 0);
                            assert(self@.last() == rest@.last());
                        },
                        List::Nil => {},
                    }
                }
                self.cdr().last()
            },
        }
    }

    /// A walk along the cells of the list.
    pub fn iter<'a>(self: &'a Arc<Self>) -> (r: Iter<'a, T>)
        ensures
            r.rest() == self@,
    {
        Iter { cur: self }
    }

    /// The first value of the list, if it has one.
    pub fn car(self: &Arc<Self>) -> (r: Option<T>)
        ensures
            r == if self@.len() > 0 {
                Some(self@[0])
            } else {
                None
            },
    {
        match &**self {
            List::Cons(v, _) => Some(*v),
            List::Nil => None,
        }
    }

    /// The list without its first value; the empty list for the empty list.
    pub fn cdr<'a>(self: &'a Arc<Self>) -> (r: &'a Arc<Self>)
        ensures
            r@ == if self@.len() > 0 {
                self@.subrange(1, self@.len() as int)
            } else {
                self@
            },
            match **self {
                List::Cons(_, rest) => *r == rest,
                List::Nil => *r == *self,
            },
    {
        match &**self {
            List::Cons(v, rest) => {
                assert(self@.subrange(1, self@.len() as int) =~= rest@);
                rest
            },
            List::Nil => self,
        }
    }
}

impl<'a, T: Copy> Iter<'a, T> {
    /// The values that the walk has before it.
    pub closed spec fn rest(&self) -> Seq<T> {
        self.cur@
    }

    /// The cell that comes next, as the list that begins there; `None` at
    /// the end of the list.
    pub fn next(&mut self) -> (r: Option<&'a Arc<List<T>>>)
        ensures
            match r {
                Some(cell) => old(self).rest().len() > 0 && cell@ == old(self).rest()
                    && final(self).rest() == old(self).rest().subrange(
                    1,
                    old(self).rest().len() as int,
                ),
                None => old(self).rest().len() == 0 && final(self).rest().len() == 0,
            },
    {
        let cur: &'a Arc<List<T>> = self.cur;
        self.cur = self.cur.cdr();
        match &**cur {
            List::Nil => None,
            List::Cons(_, _) => Some(cur),
        }
    }
}

} // verus!

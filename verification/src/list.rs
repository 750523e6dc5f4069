//! Singly linked lists.

use vstd::prelude::*;

verus! {

/// A list: empty, or a first item and the list of the rest.
#[derive(Debug)]
pub enum List<T> {
    Nil,
    Cons(T, Box<List<T>>),
}

impl<T> View for List<T> {
    type V = Seq<T>;

    /// The items, first to last.
    open spec fn view(&self) -> Seq<T>
        decreases self,
    {
        match self {
            List::Nil => Seq::empty(),
            List::Cons(x, tail) => seq![*x] + (**tail).view(),
        }
    }
}

/// Whether `out` can come of taking `acc` through `items`, first to
/// last, by `f`.
pub open spec fn folds_to<A, T, F: Fn(A, T) -> A>(f: F, items: Seq<T>, acc: A, out: A) -> bool
    decreases items.len(),
{
    if items.len() == 0 {
        out == acc
    } else {
        exists|mid: A| #[trigger]
            call_ensures(f, (acc, items[0]), mid) && folds_to(f, items.drop_first(), mid, out)
    }
}

impl<T> List<T> {
    /// Takes `acc` through the items, first to last, by `f`.
    pub fn foldl<A, F: Fn(A, T) -> A>(self, f: F, acc: A) -> (out: A)
        requires
            forall|a: A, x: T| call_requires(f, (a, x)),
        ensures
            folds_to(f, self@, acc, out),
        decreases self,
    {
        match self {
            List::Nil => acc,
            List::Cons(x, tail) => {
                let mid = f(acc, x);
                let out = (*tail).foldl(f, mid);
                proof {
                    assert(self@.drop_first() =~= (*tail)@);
                    assert(self@[0] == x);
                }
                out
            },
        }
    }

    /// The list of one item.
    pub fn singleton(x: T) -> (list: List<T>)
        ensures
            list@ == seq![x],
    {
        let tail: List<T> = List::Nil;
        assert(tail@ == Seq::<T>::empty());
        let list = List::Cons(x, Box::new(tail));
        assert(list@ =~= seq![x]);
        list
    }
}

/// The items of `xs` and then those of `ys`.
pub fn append<T>(xs: List<T>, ys: List<T>) -> (list: List<T>)
    ensures
        list@ == xs@ + ys@,
    decreases xs,
{
    match xs {
        List::Nil => {
            assert(xs@ + ys@ =~= ys@);
            ys
        },
        List::Cons(x, xtail) => {
            let rest = append(*xtail, ys);
            let list = List::Cons(x, Box::new(rest));
            assert(list@ =~= xs@ + ys@);
            list
        },
    }
}

/// `x` and then the items of `xs`.
pub fn cons<T>(x: T, xs: List<T>) -> (list: List<T>)
    ensures
        list@ == seq![x] + xs@,
{
    List::Cons(x, Box::new(xs))
}

} // verus!

//! A small vector that keeps up to two items inline and spills into a `Vec`
//! from the third item on.

use vstd::prelude::*;

verus! {

#[derive(Debug)]
pub enum MiniVec<T> {
    Empty,
    One(T),
    Two(T, T),
    Many(Vec<T>),
}

/// `trace` lists what the accumulator held while `visitor` was handed the
/// items of `items` from the first to the last: `initial` before the first
/// call, and after each call what that call returned.
pub open spec fn is_visit_trace<T, C, V: Fn(C, &T) -> C>(
    visitor: V,
    items: Seq<T>,
    initial: C,
    trace: Seq<C>,
) -> bool {
    &&& trace.len() == items.len() + 1
    &&& trace[0] == initial
    &&& forall|i: int|
        0 <= i < items.len() ==> call_ensures(visitor, (trace[i], &items[i]), #[trigger] trace[i + 1])
}

/// `out` can be reached from `initial` by handing the items of `items` to
/// `visitor` from the first to the last, each call taking what the call
/// before it returned.
pub open spec fn visits<T, C, V: Fn(C, &T) -> C>(
    visitor: V,
    items: Seq<T>,
    initial: C,
    out: C,
) -> bool {
    exists|trace: Seq<C>| #[trigger]
        is_visit_trace(visitor, items, initial, trace) && trace.last() == out
}

impl<T> View for MiniVec<T> {
    type V = Seq<T>;

    open spec fn view(&self) -> Seq<T> {
        match *self {
            MiniVec::Empty => Seq::empty(),
            MiniVec::One(first) => seq![first],
            MiniVec::Two(first, second) => seq![first, second],
            MiniVec::Many(many) => many@,
        }
    }
}

impl<T> MiniVec<T> where T: Copy {
    /// Appends `t` behind the items already held.
    pub fn push(&mut self, t: T)
        ensures
            final(self)@ == old(self)@.push(t),
    {
        match *self {
            MiniVec::Empty => {
                *self = MiniVec::One(t);
            },
            MiniVec::One(first) => {
                *self = MiniVec::Two(first, t);
            },
            MiniVec::Two(first, second) => {
                let mut many: Vec<T> = Vec::new();
                many.push(first);
                many.push(second);
                many.push(t);
                *self = MiniVec::Many(many);
            },
            MiniVec::Many(ref mut many) => many.push(t),
        }
    }

    /// Takes the last item off, if there is one.
    pub fn pop(&mut self) -> (popped: Option<T>)
        ensures
            old(self)@.len() == 0 ==> popped.is_none() && final(self)@ == old(self)@,
            old(self)@.len() > 0 ==> popped == Some(old(self)@.last()) && final(self)@ == old(
                self,
            )@.drop_last(),
    {
        match *self {
            MiniVec::Empty => None,
            MiniVec::One(first) => {
                *self = MiniVec::Empty;
                Some(first)
            },
            MiniVec::Two(first, second) => {
                *self = MiniVec::One(first);
                Some(second)
            },
            MiniVec::Many(ref mut many) => many.pop(),
        }
    }

    pub fn is_empty(&self) -> (empty: bool)
        ensures
            empty == (self@.len() == 0),
    {
        match self {
            MiniVec::Empty => true,
            MiniVec::Many(many) => many.len() == 0,
            _ => false,
        }
    }

    pub fn len(&self) -> (len: usize)
        ensures
            len == self@.len(),
    {
        match self {
            MiniVec::Empty => 0,
            MiniVec::One(_) => 1,
            MiniVec::Two(_, _) => 2,
            MiniVec::Many(many) => many.len(),
        }
    }

    /// The item at position `i`, if there is one.
    pub fn get(&self, i: usize) -> (item: Option<T>)
        ensures
            i < self@.len() ==> item == Some(self@[i as int]),
            i >= self@.len() ==> item.is_none(),
    {
        match self {
            MiniVec::Empty => None,
            MiniVec::One(first) => if i == 0 {
                Some(*first)
            } else {
                None
            },
            MiniVec::Two(first, second) => if i == 0 {
                Some(*first)
            } else if i == 1 {
                Some(*second)
            } else {
                None
            },
            MiniVec::Many(many) => if i < many.len() {
                Some(many[i])
            } else {
                None
            },
        }
    }

    /// Folds the items into `initial`, first to last, by calling `visitor`.
    pub fn visit<V, C>(&self, initial: C, visitor: V) -> (out: C) where V: Fn(C, &T) -> C
        requires
            forall|c: C, t: &T| call_requires(visitor, (c, t)),
        ensures
            visits(visitor, self@, initial, out),
    {
        let mut acc = initial;
        let ghost mut trace: Seq<C> = seq![initial];
        match self {
            MiniVec::Empty => (),
            MiniVec::One(first) => {
                acc = visitor(acc, first);
                proof {
                    trace = trace.push(acc);
                }
            },
            MiniVec::Two(first, second) => {
                acc = visitor(acc, first);
                proof {
                    trace = trace.push(acc);
                }
                acc = visitor(acc, second);
                proof {
                    trace = trace.push(acc);
                }
            },
            MiniVec::Many(many) => {
                let mut i: usize = 0;
                while i < many.len()
                    invariant
                        i <= many.len(),
                        is_visit_trace(visitor, many@.take(i as int), initial, trace),
                        trace.last() == acc,
                        forall|c: C, t: &T| call_requires(visitor, (c, t)),
                    decreases many.len() - i,
                {
                    acc = visitor(acc, &many[i]);
                    proof {
                        trace = trace.push(acc);
                    }
                    i += 1;
                }
            },
        }
        assert(is_visit_trace(visitor, self@, initial, trace));
        acc
    }
}

impl<T> Default for MiniVec<T> {
    fn default() -> (empty: Self)
        ensures
            empty@ == Seq::<T>::empty(),
    {
        MiniVec::Empty
    }
}

} // verus!

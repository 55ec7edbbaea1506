//! Small ordered sets: the elements in the order in which they were added,
//! each one once.

use crate::expr::ExprKey;
use crate::includes::{QunCol, QunId};
use vstd::prelude::*;

verus! {

/// A set that remembers the order in which its elements arrived.
#[derive(Debug)]
pub struct Bitset<T> {
    pub items: Vec<T>,
}

/// No value occurs twice in `items`.
pub open spec fn distinct<T>(items: Seq<T>) -> bool {
    forall|i: int, j: int| 0 <= i < j < items.len() ==> items[i] != items[j]
}

impl<T> View for Bitset<T> {
    type V = Seq<T>;

    open spec fn view(&self) -> Seq<T> {
        self.items@
    }
}

impl<T> Bitset<T> {
    /// No element occurs twice.
    pub open spec fn wf(&self) -> bool {
        distinct(self@)
    }

    /// The empty set.
    pub fn new() -> (set: Self)
        ensures
            set@ == Seq::<T>::empty(),
            set.wf(),
    {
        Bitset { items: Vec::new() }
    }

    /// Number of elements.
    pub fn len(&self) -> (n: usize)
        ensures
            n == self@.len(),
    {
        self.items.len()
    }

    /// The elements, in the order in which they were added.
    pub fn elements(&self) -> (items: &Vec<T>)
        ensures
            items@ == self@,
    {
        &self.items
    }
}

impl Bitset<QunCol> {
    /// Whether `item` is an element.
    pub fn get(&self, item: QunCol) -> (found: bool)
        ensures
            found == self@.contains(item),
    {
        let mut i: usize = 0;
        while i < self.items.len()
            invariant
                i <= self@.len(),
                forall|j: int| 0 <= j < i ==> self@[j] != item,
            decreases self@.len() - i,
        {
            if self.items[i] == item {
                return true;
            }
            i += 1;
        }
        false
    }

    /// Adds `item` unless it is an element already.
    pub fn set(&mut self, item: QunCol)
        requires
            old(self).wf(),
        ensures
            final(self).wf(),
            final(self)@ == if old(self)@.contains(item) {
                old(self)@
            } else {
                old(self)@.push(item)
            },
    {
        if !self.get(item) {
            self.items.push(item);
        }
    }
}

impl Bitset<ExprKey> {
    /// Whether `item` is an element.
    pub fn get(&self, item: ExprKey) -> (found: bool)
        ensures
            found == self@.contains(item),
    {
        let mut i: usize = 0;
        while i < self.items.len()
            invariant
                i <= self@.len(),
                forall|j: int| 0 <= j < i ==> self@[j] != item,
            decreases self@.len() - i,
        {
            if self.items[i] == item {
                return true;
            }
            i += 1;
        }
        false
    }

    /// Adds `item` unless it is an element already.
    pub fn set(&mut self, item: ExprKey)
        requires
            old(self).wf(),
        ensures
            final(self).wf(),
            final(self)@ == if old(self)@.contains(item) {
                old(self)@
            } else {
                old(self)@.push(item)
            },
    {
        if !self.get(item) {
            self.items.push(item);
        }
    }
}

impl Bitset<QunId> {
    /// Whether `item` is an element.
    pub fn get(&self, item: QunId) -> (found: bool)
        ensures
            found == self@.contains(item),
    {
        let mut i: usize = 0;
        while i < self.items.len()
            invariant
                i <= self@.len(),
                forall|j: int| 0 <= j < i ==> self@[j] != item,
            decreases self@.len() - i,
        {
            if self.items[i] == item {
                return true;
            }
            i += 1;
        }
        false
    }

    /// Adds `item` unless it is an element already.
    pub fn set(&mut self, item: QunId)
        requires
            old(self).wf(),
        ensures
            final(self).wf(),
            final(self)@ == if old(self)@.contains(item) {
                old(self)@
            } else {
                old(self)@.push(item)
            },
    {
        if !self.get(item) {
            self.items.push(item);
        }
    }
}

} // verus!

use vstd::prelude::*;
use crate::graph::Link;

verus! {

/// Position of the first element equal to a given one.
pub trait IndexOf<T> {
    /// The elements searched, in order.
    spec fn items(&self) -> Seq<T>;

    fn index_of(&self, elem: &T) -> (r: Option<usize>)
        ensures
            match r {
                Some(i) => {
                    &&& i < self.items().len()
                    &&& self.items()[i as int] == *elem
                    &&& forall|j: int| 0 <= j < i ==> self.items()[j] != *elem
                },
                None => !self.items().contains(*elem),
            },
    ;
}

impl IndexOf<Link> for Vec<Link> {
    open spec fn items(&self) -> Seq<Link> {
        self@
    }

    fn index_of(&self, elem: &Link) -> (r: Option<usize>) {
        let mut i: usize = 0;
        while i < self.len()
            invariant
                i <= self@.len(),
                forall|j: int| 0 <= j < i ==> self@[j] != *elem,
            decreases self@.len() - i,
        {
            if self[i] == *elem {
                return Some(i);
            }
            i = i + 1;
        }
        None
    }
}

} // verus!

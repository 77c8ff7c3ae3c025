//! Iteration over the container: a borrowed pair cursor shared by the
//! key, value and pair iterators.  The cursor is built once from whichever
//! backend is active and then stepped with `next`; it yields the pairs in
//! the backend's natural order (insertion order for the linear backend,
//! unspecified for the hash backend).

use vstd::prelude::*;

verus! {

/// The owned pairs that a sequence of borrowed pairs stands for.
pub open spec fn deref_pairs<K, V>(s: Seq<(&K, &V)>) -> Seq<(K, V)> {
    s.map_values(|p: (&K, &V)| (*p.0, *p.1))
}

/// Iterator over borrowed key/value pairs.
pub struct Iter<'a, K, V> {
    /// The snapshot of borrowed pairs, in iteration order.
    pub pairs: Vec<(&'a K, &'a V)>,
    /// How many pairs have been yielded.
    pub pos: usize,
}

impl<'a, K, V> Iter<'a, K, V> {
    /// The whole sequence of pairs this iterator was built over.
    pub open spec fn elems(self) -> Seq<(K, V)> {
        deref_pairs(self.pairs@)
    }

    /// The pairs not yet yielded.
    pub open spec fn remaining(self) -> Seq<(K, V)> {
        self.elems().skip(self.pos as int)
    }

    /// The cursor has not run past the end.
    pub open spec fn wf(self) -> bool {
        self.pos <= self.pairs@.len()
    }

    /// The next pair, or nothing once all pairs have been yielded.
    pub fn next(&mut self) -> (r: Option<(&'a K, &'a V)>)
        requires
            old(self).wf(),
        ensures
            final(self).wf(),
            final(self).elems() == old(self).elems(),
            match r {
                Some(p) => {
                    &&& old(self).pos < old(self).elems().len()
                    &&& (*p.0, *p.1) == old(self).elems()[old(self).pos as int]
                    &&& final(self).pos == old(self).pos + 1
                },
                None => {
                    &&& old(self).pos == old(self).elems().len()
                    &&& final(self).pos == old(self).pos
                },
            },
    {
        if self.pos < self.pairs.len() {
            let p = self.pairs[self.pos];
            self.pos = self.pos + 1;
            Some(p)
        } else {
            None
        }
    }

    /// Bounds on the number of pairs still to come: exact here.
    pub fn size_hint(&self) -> (r: (usize, Option<usize>))
        requires
            self.wf(),
        ensures
            r.0 == self.remaining().len(),
            r.1 == Some(r.0),
    {
        let n = self.pairs.len() - self.pos;
        (n, Some(n))
    }
}

/// Iterator over pairs of borrowed key and mutably borrowed value.  The
/// pairs were split out of the container up front, listed back to front,
/// so that popping yields them in the container's iteration order.
pub struct IterMut<'a, K, V> {
    /// The pairs still to be yielded.
    pub pairs: Vec<(&'a K, &'a mut V)>,
}

impl<'a, K, V> IterMut<'a, K, V> {
    /// The next pair, or nothing once all pairs have been yielded.
    pub fn next(&mut self) -> (r: Option<(&'a K, &'a mut V)>)
        ensures
            match r {
                Some(p) => {
                    &&& old(self).pairs@.len() > 0
                    &&& p == old(self).pairs@.last()
                    &&& final(self).pairs@ == old(self).pairs@.drop_last()
                },
                None => {
                    &&& old(self).pairs@.len() == 0
                    &&& final(self).pairs@ == old(self).pairs@
                },
            },
    {
        self.pairs.pop()
    }

    /// Bounds on the number of pairs still to come: exact here.
    pub fn size_hint(&self) -> (r: (usize, Option<usize>))
        ensures
            r.0 == self.pairs@.len(),
            r.1 == Some(r.0),
    {
        let n = self.pairs.len();
        (n, Some(n))
    }
}

} // verus!

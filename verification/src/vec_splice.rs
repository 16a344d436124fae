use vstd::prelude::*;

verus! {

/// A pass over a vector that keeps, changes, drops and inserts items in place.
///
/// The vector is seen as two parts: the items that the pass is done with, in
/// their final order, and the items that it has yet to decide on, in their old
/// order. Items that are kept are never moved for an insertion or a removal
/// that comes after them.
pub struct VecSplice<T> {
    v: Vec<T>,
    scratch: Vec<T>,
    ix: usize,
}

impl<T> VecSplice<T> {
    /// The pass knows where it is.
    pub closed spec fn wf(&self) -> bool {
        self.ix <= self.v@.len()
    }

    /// The items that the pass is done with, in their final order.
    pub closed spec fn done(&self) -> Seq<T> {
        self.v@.take(self.ix as int)
    }

    /// The items that the pass has yet to decide on, next one first.
    pub closed spec fn pending(&self) -> Seq<T> {
        self.v@.skip(self.ix as int) + self.scratch@.reverse()
    }

    /// Starts a pass over the items of `v`, followed by those that `scratch`
    /// holds, last one first. Both vectors are empty while the pass runs.
    pub fn new(v: &mut Vec<T>, scratch: &mut Vec<T>) -> (s: Self)
        ensures
            s.wf(),
            s.done() == Seq::<T>::empty(),
            s.pending() == old(v)@ + old(scratch)@.reverse(),
            final(v)@ == Seq::<T>::empty(),
            final(scratch)@ == Seq::<T>::empty(),
    {
        let mut s = VecSplice { v: Vec::new(), scratch: Vec::new(), ix: 0 };
        std::mem::swap(&mut s.v, v);
        std::mem::swap(&mut s.scratch, scratch);
        assert(s.v@.skip(0) =~= s.v@);
        assert(s.done() =~= Seq::<T>::empty());
        s
    }

    /// Ends the pass and hands the vectors back: the items that the pass is
    /// done with come first in `v`, and those left undecided follow them in
    /// `v` or wait in `scratch`.
    pub fn finish(self, v: &mut Vec<T>, scratch: &mut Vec<T>)
        requires
            self.wf(),
        ensures
            final(v)@.len() >= self.done().len(),
            final(v)@.take(self.done().len() as int) == self.done(),
            final(v)@.skip(self.done().len() as int) + final(scratch)@.reverse() == self.pending(),
            self.pending().len() == 0 ==> final(v)@ == self.done() && final(scratch)@
                == Seq::<T>::empty(),
    {
        let VecSplice { v: sv, scratch: ss, ix: _ } = self;
        *v = sv;
        *scratch = ss;
        proof {
            if self.pending().len() == 0 {
                assert(self.v@.skip(self.ix as int).len() == 0);
                assert(self.scratch@.reverse().len() == 0);
                assert(self.v@ =~= self.done());
                assert(self.scratch@ =~= Seq::<T>::empty());
            }
        }
    }

    /// How many items the pass is done with.
    pub fn len(&self) -> (n: usize)
        requires
            self.wf(),
        ensures
            n == self.done().len(),
    {
        self.ix
    }

    /// Moves the undecided items that are still in place over to the scratch
    /// vector.
    fn clear_tail(&mut self)
        requires
            old(self).wf(),
        ensures
            final(self).wf(),
            final(self).done() == old(self).done(),
            final(self).pending() == old(self).pending(),
            final(self).v@.len() == final(self).ix,
            final(self).ix == old(self).ix,
    {
        while self.v.len() > self.ix
            invariant
                self.wf(),
                self.ix == old(self).ix,
                self.done() == old(self).done(),
                self.pending() == old(self).pending(),
            decreases self.v@.len(),
        {
            let ghost before = *self;
            let item = self.v.pop();
            match item {
                Some(x) => {
                    self.scratch.push(x);
                },
                None => {},
            }
            proof {
                assert(self.done() =~= before.done());
                assert(self.pending() =~= before.pending());
            }
        }
    }

    /// Keeps the next `n` undecided items as they are.
    pub fn skip(&mut self, n: usize)
        requires
            old(self).wf(),
            n <= old(self).pending().len(),
        ensures
            final(self).wf(),
            final(self).done() == old(self).done() + old(self).pending().take(n as int),
            final(self).pending() == old(self).pending().skip(n as int),
    {
        let in_place: usize = self.v.len() - self.ix;
        if n <= in_place {
            self.ix = self.ix + n;
            proof {
                assert(self.done() =~= old(self).done() + old(self).pending().take(n as int));
                assert(self.pending() =~= old(self).pending().skip(n as int));
            }
        } else {
            let mut left: usize = n - in_place;
            while left > 0
                invariant
                    self.wf(),
                    self.ix == old(self).ix,
                    self.done() == old(self).done(),
                    self.pending() == old(self).pending(),
                    self.v@.len() - self.ix + left == n,
                    n <= self.pending().len(),
                decreases left,
            {
                let ghost before = *self;
                let item = self.scratch.pop();
                match item {
                    Some(x) => {
                        self.v.push(x);
                    },
                    None => {},
                }
                left = left - 1;
                proof {
                    assert(before.scratch@.len() > 0);
                    assert(self.done() =~= before.done());
                    assert(self.pending() =~= before.pending());
                }
            }
            self.ix = self.v.len();
            proof {
                assert(self.done() =~= old(self).done() + old(self).pending().take(n as int));
                assert(self.pending() =~= old(self).pending().skip(n as int));
            }
        }
    }

    /// Drops the next `n` undecided items.
    pub fn delete(&mut self, n: usize)
        requires
            old(self).wf(),
            n <= old(self).pending().len(),
        ensures
            final(self).wf(),
            final(self).done() == old(self).done(),
            final(self).pending() == old(self).pending().skip(n as int),
    {
        self.clear_tail();
        let ghost before = *self;
        let keep: usize = self.scratch.len() - n;
        self.scratch.truncate(keep);
        proof {
            assert(self.done() =~= before.done());
            assert(self.pending() =~= before.pending().skip(n as int));
        }
    }

    /// Puts `value` in as the next item that the pass is done with.
    pub fn push(&mut self, value: T)
        requires
            old(self).wf(),
        ensures
            final(self).wf(),
            final(self).done() == old(self).done().push(value),
            final(self).pending() == old(self).pending(),
    {
        self.clear_tail();
        let ghost before = *self;
        self.v.push(value);
        self.ix = self.v.len();
        proof {
            assert(self.done() =~= before.done().push(value));
            assert(self.pending() =~= before.pending());
        }
    }

    /// Puts the items of `items` in, in order, as the next items that the pass
    /// is done with, and leaves `items` empty.
    pub fn append(&mut self, items: &mut Vec<T>)
        requires
            old(self).wf(),
        ensures
            final(self).wf(),
            final(self).done() == old(self).done() + old(items)@,
            final(self).pending() == old(self).pending(),
            final(items)@ == Seq::<T>::empty(),
    {
        self.clear_tail();
        let ghost before = *self;
        self.v.append(items);
        self.ix = self.v.len();
        proof {
            assert(self.done() =~= before.done() + old(items)@);
            assert(self.pending() =~= before.pending());
        }
    }

    /// Hands out the next undecided item to be changed in place. The pass is
    /// done with it as the caller leaves it.
    pub fn mutate(&mut self) -> (item: &mut T)
        requires
            old(self).wf(),
            old(self).pending().len() > 0,
        ensures
            *item == old(self).pending()[0],
            final(self).wf(),
            final(self).done() == old(self).done().push(*final(item)),
            final(self).pending() == old(self).pending().skip(1),
    {
        if self.v.len() == self.ix {
            let ghost before = *self;
            let item = self.scratch.pop();
            match item {
                Some(x) => {
                    self.v.push(x);
                },
                None => {},
            }
            proof {
                assert(before.scratch@.len() > 0);
                assert(self.done() =~= before.done());
                assert(self.pending() =~= before.pending());
            }
        }
        assert(self.ix < self.v.len()) by {
            if self.v@.len() == self.ix {
                assert(self.v@.skip(self.ix as int).len() == 0);
                assert(self.pending().len() == self.scratch@.reverse().len());
            }
        }
        let at: usize = self.ix;
        self.ix = self.ix + 1;
        proof {
            let now = *self;
            assert(now.v@[at as int] == old(self).pending()[0]);
            assert forall|x: T|
                (#[trigger] now.v@.update(at as int, x)).take(now.ix as int) == old(
                    self,
                ).done().push(x) by {
                assert(now.v@.update(at as int, x).take(now.ix as int) =~= old(self).done().push(
                    x,
                ));
            }
            assert forall|x: T|
                (#[trigger] now.v@.update(at as int, x)).skip(now.ix as int) + now.scratch@.reverse()
                    == old(self).pending().skip(1) by {
                assert(now.v@.update(at as int, x).skip(now.ix as int) + now.scratch@.reverse()
                    =~= old(self).pending().skip(1));
            }
        }
        let item = &mut self.v[at];
        item
    }
}

} // verus!

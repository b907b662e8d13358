//! The capability interface for anything that can produce a sequence of
//! samples: a buffer, a test generator, or another filter stage. Chaining
//! filter streams composes through this trait without materializing
//! intermediate buffers.

use vstd::prelude::*;

use crate::biquad::AMP_LIMIT;

verus! {

/// A finite source of fixed-point amplitude samples, handed out one at a
/// time. `remaining()` is the mathematical sequence of samples the source
/// will still produce; every produced sample lies within [`AMP_LIMIT`].
pub trait SampleSource: Sized {
    /// The source's internal well-formedness, preserved by every call.
    spec fn inv(&self) -> bool;

    /// The samples this source will still produce, in order.
    spec fn remaining(&self) -> Seq<i64>;

    /// Produce the next sample, or signal the end of the stream.
    fn next_sample(&mut self) -> (r: Option<i64>)
        requires
            old(self).inv(),
        ensures
            final(self).inv(),
            old(self).remaining().len() == 0 ==> r is None && final(self).remaining()
                == old(self).remaining(),
            old(self).remaining().len() > 0 ==> {
                &&& r == Some(old(self).remaining()[0])
                &&& -AMP_LIMIT <= old(self).remaining()[0] <= AMP_LIMIT
                &&& final(self).remaining() == old(self).remaining().drop_first()
            },
    ;
}

/// A sample source backed by a buffer, produced front to back.
pub struct VecSource {
    data: Vec<i64>,
    pos: usize,
}

impl VecSource {
    /// Wrap a buffer of samples. Every sample must lie within the pipeline's
    /// amplitude limit; samples at the nominal [-1.0, 1.0] range satisfy
    /// that with sixteen-fold headroom.
    pub fn new(data: Vec<i64>) -> (s: VecSource)
        requires
            forall|i: int|
                0 <= i < data@.len() ==> -AMP_LIMIT <= #[trigger] data@[i] <= AMP_LIMIT,
        ensures
            s.inv(),
            s.remaining() == data@,
    {
        let s = VecSource { data, pos: 0 };
        proof {
            assert(s.remaining() =~= s.data@);
        }
        s
    }
}

impl SampleSource for VecSource {
    closed spec fn inv(&self) -> bool {
        &&& self.pos <= self.data@.len()
        &&& forall|i: int|
            0 <= i < self.data@.len() ==> -AMP_LIMIT <= #[trigger] self.data@[i] <= AMP_LIMIT
    }

    closed spec fn remaining(&self) -> Seq<i64> {
        if self.pos <= self.data@.len() {
            self.data@.skip(self.pos as int)
        } else {
            Seq::empty()
        }
    }

    fn next_sample(&mut self) -> (r: Option<i64>) {
        if self.pos < self.data.len() {
            let v = self.data[self.pos];
            self.pos = self.pos + 1;
            proof {
                assert(self.remaining() =~= old(self).remaining().drop_first());
            }
            Some(v)
        } else {
            None
        }
    }
}

} // verus!

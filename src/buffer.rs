//! The aggregation buffer: the frames that capture workers have handed in since the
//! last drain. Callers that share it between threads hold it under one lock, taken only
//! for an append or a drain.
use vstd::prelude::*;

use crate::analyze::Frame;

verus! {

/// The contents after an append.
pub open spec fn append_spec(contents: Seq<Frame>, f: Frame) -> Seq<Frame> {
    contents.push(f)
}

/// What a drain hands out, and the contents it leaves.
pub open spec fn drain_spec(contents: Seq<Frame>) -> (Seq<Frame>, Seq<Frame>) {
    (contents, Seq::empty())
}

/// The contents after appending each of `items` in turn.
pub open spec fn append_all(contents: Seq<Frame>, items: Seq<Frame>) -> Seq<Frame>
    decreases items.len(),
{
    if items.len() == 0 {
        contents
    } else {
        append_spec(append_all(contents, items.drop_last()), items.last())
    }
}

/// An append-only collection of frames, emptied by draining.
#[derive(Debug)]
pub struct FrameBuffer {
    frames: Vec<Frame>,
}

impl View for FrameBuffer {
    type V = Seq<Frame>;

    closed spec fn view(&self) -> Seq<Frame> {
        self.frames@
    }
}

impl FrameBuffer {
    pub fn new() -> (r: Self)
        ensures
            r@ == Seq::<Frame>::empty(),
    {
        FrameBuffer { frames: Vec::new() }
    }

    pub fn len(&self) -> (r: usize)
        ensures
            r == self@.len(),
    {
        self.frames.len()
    }

    pub fn append(&mut self, f: Frame)
        ensures
            final(self)@ == append_spec(old(self)@, f),
    {
        self.frames.push(f);
    }

    /// Hands out every frame, in order of arrival, and leaves the buffer empty.
    pub fn drain(&mut self) -> (r: Vec<Frame>)
        ensures
            (r@, final(self)@) == drain_spec(old(self)@),
    {
        let mut out: Vec<Frame> = Vec::new();
        std::mem::swap(&mut self.frames, &mut out);
        out
    }

    /// Discards every frame.
    pub fn clear(&mut self)
        ensures
            final(self)@ == Seq::<Frame>::empty(),
    {
        self.frames.clear();
    }
}

proof fn lemma_append_all_concat(contents: Seq<Frame>, items: Seq<Frame>)
    ensures
        append_all(contents, items) == contents + items,
    decreases items.len(),
{
    if items.len() > 0 {
        lemma_append_all_concat(contents, items.drop_last());
        assert(contents + items =~= (contents + items.drop_last()).push(items.last()));
    }
}

/// Drain exclusivity: starting from any contents, appending `items` with one drain after
/// the first `k` of them, the frames drained followed by those left in the buffer are the
/// starting contents and then every appended frame, each exactly once and in order.
pub proof fn lemma_drain_exclusive(contents: Seq<Frame>, items: Seq<Frame>, k: int)
    requires
        0 <= k <= items.len(),
    ensures
        ({
            let (drained, left) = drain_spec(append_all(contents, items.take(k)));
            drained + append_all(left, items.skip(k)) == contents + items
        }),
{
    lemma_append_all_concat(contents, items.take(k));
    lemma_append_all_concat(Seq::empty(), items.skip(k));
    assert(Seq::<Frame>::empty() + items.skip(k) =~= items.skip(k));
    assert(contents + items.take(k) + items.skip(k) =~= contents + items);
}

} // verus!

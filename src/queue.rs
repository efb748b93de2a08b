use vstd::prelude::*;
use std::collections::VecDeque;

verus! {

/// The work for one row: the row it fills, the reference set that may hold
/// more of its items, and the image URLs known so far.
pub struct ImageLoadingBundle {
    pub refset_id: String,
    pub refset_type: String,
    pub container_idx: usize,
    pub images_to_load: Vec<String>,
}

/// First-in first-out list of pending bundles. It is filled once, before any
/// worker takes from it, and drained by the workers; taking never waits.
pub struct WorkQueue {
    pub bundles: VecDeque<ImageLoadingBundle>,
}

impl WorkQueue {
    pub open spec fn view(&self) -> Seq<ImageLoadingBundle> {
        self.bundles@
    }

    /// An empty queue.
    pub fn new() -> (r: Self)
        ensures
            r@ == Seq::<ImageLoadingBundle>::empty(),
    {
        WorkQueue { bundles: VecDeque::new() }
    }

    /// Number of pending bundles.
    pub fn len(&self) -> (r: usize)
        ensures
            r == self@.len(),
    {
        self.bundles.len()
    }

    /// Appends `bundle` at the back.
    pub fn push_back(&mut self, bundle: ImageLoadingBundle)
        ensures
            final(self)@ == old(self)@.push(bundle),
    {
        self.bundles.push_back(bundle);
    }

    /// Takes the bundle at the front. On an empty queue it returns `None` and
    /// leaves the queue as it was, however often it is called.
    pub fn pop_front(&mut self) -> (r: Option<ImageLoadingBundle>)
        ensures
            old(self)@.len() == 0 ==> r is None && final(self)@ == old(self)@,
            old(self)@.len() > 0 ==> r == Some(old(self)@[0]) && final(self)@ == old(self)@.drop_first(),
    {
        self.bundles.pop_front()
    }
}

} // verus!

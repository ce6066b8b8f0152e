use std::collections::HashSet;
use vstd::prelude::*;

verus! {

broadcast use vstd::std_specs::hash::group_hash_axioms;

/// Three sets of button codes: the buttons that are held ("down"), and the
/// buttons that went down ("pressed") and up ("released") since the edges
/// were last cleared.
pub struct EdgeSet {
    down: HashSet<u64>,
    pressed: HashSet<u64>,
    released: HashSet<u64>,
}

impl EdgeSet {
    pub closed spec fn down(&self) -> Set<u64> {
        self.down@
    }

    pub closed spec fn pressed(&self) -> Set<u64> {
        self.pressed@
    }

    pub closed spec fn released(&self) -> Set<u64> {
        self.released@
    }

    /// Nothing held, no edges.
    pub fn new() -> (edges: Self)
        ensures
            edges.down() == Set::<u64>::empty(),
            edges.pressed() == Set::<u64>::empty(),
            edges.released() == Set::<u64>::empty(),
    {
        EdgeSet { down: HashSet::new(), pressed: HashSet::new(), released: HashSet::new() }
    }

    /// The button goes down. It counts as pressed only if it was not held:
    /// a repeated "down" raises no second edge.
    pub fn press(&mut self, code: u64)
        ensures
            final(self).down() == old(self).down().insert(code),
            final(self).pressed() == if old(self).down().contains(code) {
                old(self).pressed()
            } else {
                old(self).pressed().insert(code)
            },
            final(self).released() == old(self).released(),
    {
        if !self.down.contains(&code) {
            self.pressed.insert(code);
        }
        self.down.insert(code);
    }

    /// The button goes up. It counts as released whether or not it was held.
    pub fn release(&mut self, code: u64)
        ensures
            final(self).down() == old(self).down().remove(code),
            final(self).pressed() == old(self).pressed(),
            final(self).released() == old(self).released().insert(code),
    {
        self.down.remove(&code);
        self.released.insert(code);
    }

    /// The button goes up if it was held; otherwise nothing changes.
    pub fn release_if_down(&mut self, code: u64)
        ensures
            final(self).down() == old(self).down().remove(code),
            final(self).pressed() == old(self).pressed(),
            final(self).released() == if old(self).down().contains(code) {
                old(self).released().insert(code)
            } else {
                old(self).released()
            },
    {
        if self.down.contains(&code) {
            self.released.insert(code);
            self.down.remove(&code);
        } else {
            assert(self.down@.remove(code) =~= self.down@);
        }
    }

    /// Forgets the buttons that went down.
    pub fn clear_pressed(&mut self)
        ensures
            final(self).down() == old(self).down(),
            final(self).pressed() == Set::<u64>::empty(),
            final(self).released() == old(self).released(),
    {
        self.pressed.clear();
    }

    /// Forgets the buttons that went up.
    pub fn clear_released(&mut self)
        ensures
            final(self).down() == old(self).down(),
            final(self).pressed() == old(self).pressed(),
            final(self).released() == Set::<u64>::empty(),
    {
        self.released.clear();
    }

    pub fn is_down(&self, code: u64) -> (b: bool)
        ensures
            b == self.down().contains(code),
    {
        self.down.contains(&code)
    }

    pub fn was_pressed(&self, code: u64) -> (b: bool)
        ensures
            b == self.pressed().contains(code),
    {
        self.pressed.contains(&code)
    }

    pub fn was_released(&self, code: u64) -> (b: bool)
        ensures
            b == self.released().contains(code),
    {
        self.released.contains(&code)
    }
}

} // verus!

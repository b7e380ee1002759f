use vstd::prelude::*;

verus! {

/// An append-only pool that owns the storage of every node created during one
/// session. Nodes are identified by the index at which they were appended;
/// a node is never removed individually, so an index handed out by `alloc`
/// stays valid for as long as the arena itself lives.
pub struct Arena<V> {
    items: Vec<V>,
}

/// The sole owner of an arena's storage. Dropping the guard tears the whole
/// pool down at once; because every handle is a plain index, Rust's borrow
/// checker makes it impossible to dereference a handle after teardown, which
/// replaces the run-time dangling-handle assertion of a weak-pointer scheme
/// with a compile-time guarantee.
#[must_use]
pub struct ArenaLifeTime<V> {
    pub(crate) arena: Arena<V>,
}

/// A freely copyable allocation token. Allocating through it requires an
/// exclusive borrow of the guard, so an allocation can never outlive the
/// storage it goes into.
#[derive(Clone, Copy)]
pub struct ArenaRef;

impl<V> View for Arena<V> {
    type V = Seq<V>;

    closed spec fn view(&self) -> Seq<V> {
        self.items@
    }
}

impl<V> View for ArenaLifeTime<V> {
    type V = Seq<V>;

    closed spec fn view(&self) -> Seq<V> {
        self.arena@
    }
}

impl<V> Arena<V> {
    /// Creates an empty pool and returns its lifetime guard together with a
    /// cloneable allocation token.
    pub fn build() -> (r: (ArenaLifeTime<V>, ArenaRef))
        ensures
            r.0@.len() == 0,
    {
        (ArenaLifeTime { arena: Arena { items: Vec::new() } }, ArenaRef)
    }

    /// Appends a node to the pool and returns its index, the non-owning
    /// handle through which it is reached from then on.
    pub fn allocate(&mut self, value: V) -> (ix: usize)
        ensures
            final(self)@ == old(self)@.push(value),
            ix == old(self)@.len(),
    {
        let ix = self.items.len();
        self.items.push(value);
        ix
    }

    /// Reads the node stored at `ix`.
    pub fn get(&self, ix: usize) -> (r: &V)
        requires
            ix < self@.len(),
        ensures
            *r == self@[ix as int],
    {
        &self.items[ix]
    }

    /// Replaces the node stored at `ix`.
    pub fn set(&mut self, ix: usize, value: V)
        requires
            ix < old(self)@.len(),
        ensures
            final(self)@ == old(self)@.update(ix as int, value),
    {
        self.items.set(ix, value);
    }

    /// The number of nodes allocated so far.
    pub fn len(&self) -> (n: usize)
        ensures
            n == self@.len(),
    {
        self.items.len()
    }
}

impl<V> ArenaLifeTime<V> {
    /// Reads the node stored at `ix` in the guarded arena.
    pub fn get(&self, ix: usize) -> (r: &V)
        requires
            ix < self@.len(),
        ensures
            *r == self@[ix as int],
    {
        self.arena.get(ix)
    }

    /// Replaces the node stored at `ix` in the guarded arena.
    pub fn set(&mut self, ix: usize, value: V)
        requires
            ix < old(self)@.len(),
        ensures
            final(self)@ == old(self)@.update(ix as int, value),
    {
        self.arena.set(ix, value);
    }

    /// The number of nodes allocated so far in the guarded arena.
    pub fn len(&self) -> (n: usize)
        ensures
            n == self@.len(),
    {
        self.arena.len()
    }
}

impl ArenaRef {
    /// Allocates a node in the arena behind the guard. The exclusive borrow
    /// stands in for the upgrade-or-panic step of a weak-pointer scheme:
    /// a torn-down arena cannot be named here at all.
    pub fn alloc_with_mut_borrow<V>(&self, guard: &mut ArenaLifeTime<V>, value: V) -> (ix: usize)
        ensures
            final(guard)@ == old(guard)@.push(value),
            ix == old(guard)@.len(),
    {
        guard.arena.allocate(value)
    }
}

} // verus!

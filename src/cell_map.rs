use vstd::prelude::*;

verus! {

/// A hash map from grid cells to handles, held in bevy's `HashMap`.
#[verifier::external_body]
pub struct CellMap {
    inner: bevy::utils::HashMap<(i32, i32), u64>,
}

/// What a `CellMap` holds: each stored cell with its handle.
pub uninterp spec fn cells_of(m: CellMap) -> Map<(i32, i32), u64>;

impl CellMap {
    /// Relies on bevy's `HashMap::default`: a map with no entries.
    #[verifier::external_body]
    pub(crate) fn new() -> (r: CellMap)
        ensures
            cells_of(r).is_empty(),
    {
        CellMap { inner: bevy::utils::HashMap::default() }
    }

    /// Relies on hashbrown's `HashMap::contains_key`: true iff the key is stored.
    #[verifier::external_body]
    pub(crate) fn contains_key(&self, k: (i32, i32)) -> (r: bool)
        ensures
            r == cells_of(*self).contains_key(k),
    {
        self.inner.contains_key(&k)
    }

    /// Relies on hashbrown's `HashMap::insert`: the key now maps to `v`, every
    /// other entry stays.
    #[verifier::external_body]
    pub(crate) fn insert(&mut self, k: (i32, i32), v: u64)
        ensures
            cells_of(*final(self)) == cells_of(*old(self)).insert(k, v),
    {
        self.inner.insert(k, v);
    }

    /// Relies on hashbrown's `HashMap::remove`: the key's entry leaves the map
    /// and its value is returned, `None` where the key was not stored.
    #[verifier::external_body]
    pub(crate) fn remove(&mut self, k: (i32, i32)) -> (r: Option<u64>)
        ensures
            cells_of(*final(self)) == cells_of(*old(self)).remove(k),
            r == (if cells_of(*old(self)).contains_key(k) {
                Some(cells_of(*old(self))[k])
            } else {
                None
            }),
    {
        self.inner.remove(&k)
    }

    /// Relies on hashbrown's `HashMap::keys`: every stored key, each once, in
    /// an unspecified order.
    #[verifier::external_body]
    pub(crate) fn keys(&self) -> (r: Vec<(i32, i32)>)
        ensures
            r@.no_duplicates(),
            forall|k: (i32, i32)| r@.contains(k) <==> cells_of(*self).contains_key(k),
    {
        self.inner.keys().copied().collect()
    }
}

} // verus!

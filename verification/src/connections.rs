//! The open connections of one client on the server, bounded by the
//! connection limit per client key.
use vstd::prelude::*;

verus! {

/// What a table stands for: the ids of the open connections, and the most
/// that may be open at once.
pub struct OpenConnections {
    pub ids: Set<u64>,
    pub limit: usize,
}

/// The ids of a client's open connections, each once, never more than the
/// limit. The ids are held in a `Vec` rather than a hash map: the table only
/// needs the set of ids (the streams stay with the caller), a client's limit
/// is small so a scan is as cheap as hashing, and the invariant (no id twice,
/// at most the limit) is stated directly over the vector's sequence.
pub struct ConnectionTable {
    ids: Vec<u64>,
    limit: usize,
}

impl View for ConnectionTable {
    type V = OpenConnections;

    closed spec fn view(&self) -> OpenConnections {
        OpenConnections { ids: self.ids@.to_set(), limit: self.limit }
    }
}

impl ConnectionTable {
    #[verifier::type_invariant]
    spec fn within_limit(self) -> bool {
        self.ids@.no_duplicates() && self.ids@.len() <= self.limit
    }

    proof fn lemma_count(self)
        requires
            self.within_limit(),
        ensures
            self@.ids.len() == self.ids@.len(),
            self@.ids.finite(),
            self@.ids.len() <= self@.limit,
    {
        self.ids@.unique_seq_to_set();
    }

    /// An empty table for at most `limit` connections.
    pub fn new(limit: usize) -> (r: Self)
        ensures
            r@.ids == Set::<u64>::empty(),
            r@.limit == limit,
    {
        let r = ConnectionTable { ids: Vec::new(), limit };
        assert(r@.ids =~= Set::<u64>::empty());
        r
    }

    /// How many connections are open.
    pub fn len(&self) -> (r: usize)
        ensures
            r == self@.ids.len(),
            self@.ids.finite(),
            r <= self@.limit,
    {
        proof {
            use_type_invariant(self);
            self.lemma_count();
        }
        self.ids.len()
    }

    /// The most connections that may be open at once.
    pub fn limit(&self) -> (r: usize)
        ensures
            r == self@.limit,
    {
        self.limit
    }

    /// Whether another connection may be opened.
    pub fn has_room(&self) -> (r: bool)
        ensures
            r == (self@.ids.len() < self@.limit),
    {
        proof {
            use_type_invariant(self);
            self.lemma_count();
        }
        self.ids.len() < self.limit
    }

    /// Whether the connection with this id is open.
    pub fn contains(&self, connection_id: u64) -> (r: bool)
        ensures
            r == self@.ids.contains(connection_id),
    {
        self.position(connection_id).is_some()
    }

    fn position(&self, connection_id: u64) -> (r: Option<usize>)
        ensures
            match r {
                Some(k) => k < self.ids@.len() && self.ids@[k as int] == connection_id,
                None => !self@.ids.contains(connection_id),
            },
    {
        let mut k: usize = 0;
        while k < self.ids.len()
            invariant
                0 <= k <= self.ids@.len(),
                forall|j: int| 0 <= j < k ==> self.ids@[j] != connection_id,
            decreases self.ids@.len() - k,
        {
            if self.ids[k] == connection_id {
                return Some(k);
            }
            k = k + 1;
        }
        None
    }

    /// Record a newly opened connection. Refused (and nothing changes) when
    /// the id is already open or the limit is reached.
    pub fn insert(&mut self, connection_id: u64) -> (r: bool)
        ensures
            r == (!old(self)@.ids.contains(connection_id) && old(self)@.ids.len() < old(self)@.limit),
            final(self)@.ids == (if r {
                old(self)@.ids.insert(connection_id)
            } else {
                old(self)@.ids
            }),
            final(self)@.limit == old(self)@.limit,
            final(self)@.ids.len() <= final(self)@.limit,
    {
        proof {
            use_type_invariant(&*self);
            self.lemma_count();
        }
        if self.contains(connection_id) || self.ids.len() >= self.limit {
            return false;
        }
        let ghost before = self.ids@;
        let mut ids = self.ids.clone();
        assert(ids@ =~= before);
        ids.push(connection_id);
        proof {
            assert(ids@ =~= before.push(connection_id));
            assert forall|x: u64| #[trigger] ids@.to_set().contains(x) == before.to_set().insert(
                connection_id,
            ).contains(x) by {
                if ids@.contains(x) {
                    let j = choose|j: int| 0 <= j < ids@.len() && ids@[j] == x;
                    if j < before.len() {
                        assert(before[j] == x);
                    }
                }
                if before.contains(x) {
                    let j = choose|j: int| 0 <= j < before.len() && before[j] == x;
                    assert(ids@[j] == x);
                }
                if x == connection_id {
                    assert(ids@[before.len() as int] == x);
                }
            }
            assert(ids@.to_set() =~= before.to_set().insert(connection_id));
            assert(ids@.no_duplicates());
        }
        *self = ConnectionTable { ids, limit: self.limit };
        proof {
            self.lemma_count();
        }
        true
    }

    /// Forget a connection. Returns whether it was open.
    pub fn remove(&mut self, connection_id: u64) -> (r: bool)
        ensures
            r == old(self)@.ids.contains(connection_id),
            final(self)@.ids == old(self)@.ids.remove(connection_id),
            final(self)@.limit == old(self)@.limit,
            final(self)@.ids.len() <= final(self)@.limit,
    {
        proof {
            use_type_invariant(&*self);
        }
        match self.position(connection_id) {
            Some(k) => {
                let ghost before = self.ids@;
                let mut ids = self.ids.clone();
                assert(ids@ =~= before);
                ids.remove(k);
                assert(ids@ =~= before.remove(k as int));
                proof {
                    assert(ids@.no_duplicates()) by {
                        assert forall|a: int, b: int| 0 <= a < b < ids@.len() implies ids@[a] != ids@[b] by {
                            let a2 = if a < k { a } else { a + 1 };
                            let b2 = if b < k { b } else { b + 1 };
                            assert(ids@[a] == before[a2] && ids@[b] == before[b2]);
                        }
                    }
                }
                *self = ConnectionTable { ids, limit: self.limit };
                proof {
                    assert forall|x: u64| #[trigger] self.ids@.to_set().contains(x) == before.to_set().remove(
                        connection_id,
                    ).contains(x) by {
                        if self.ids@.contains(x) {
                            let j = choose|j: int| 0 <= j < self.ids@.len() && self.ids@[j] == x;
                            if j < k {
                                assert(before[j] == x);
                            } else {
                                assert(before[j + 1] == x);
                            }
                        }
                        if before.contains(x) && x != connection_id {
                            let j = choose|j: int| 0 <= j < before.len() && before[j] == x;
                            if j < k {
                                assert(self.ids@[j] == x);
                            } else {
                                assert(self.ids@[j - 1] == x);
                            }
                        }
                    }
                    assert(self.ids@.to_set() =~= before.to_set().remove(connection_id));
                    use_type_invariant(&*self);
                    self.lemma_count();
                }
                true
            },
            None => {
                proof {
                    assert(old(self)@.ids.remove(connection_id) =~= old(self)@.ids);
                    self.lemma_count();
                }
                false
            },
        }
    }

    /// The ids of the open connections, each once.
    pub fn ids(&self) -> (r: Vec<u64>)
        ensures
            r@.to_set() == self@.ids,
            r@.no_duplicates(),
    {
        proof {
            use_type_invariant(self);
        }
        self.ids.clone()
    }
}

} // verus!

//! The node directory: the registry of ring members, with each member's
//! address and recorded predecessor.

use crate::error::DhtError;
use crate::table::Table;
use vstd::prelude::*;

verus! {

/// A directory row as it is listed: a member's id, address, port and
/// predecessor.
#[derive(Clone, Debug, PartialEq, Eq)]
pub struct NodeRecord {
    pub id: i64,
    pub address: String,
    pub port: i64,
    pub predecessor: Option<i64>,
}

/// What the directory knows of a member.
pub struct Member {
    pub address: Seq<char>,
    pub port: i32,
    pub predecessor: Option<i32>,
}

/// A member's registration as the directory keeps it.
pub struct Registration {
    pub address: String,
    pub port: i32,
    pub predecessor: Option<i32>,
}

impl View for Registration {
    type V = Member;

    open spec fn view(&self) -> Member {
        Member { address: self.address@, port: self.port, predecessor: self.predecessor }
    }
}

/// An in-memory node directory.
pub struct NodeDirectory {
    table: Table<Registration>,
}

/// Whether `p` is the greatest id of `ids` that is strictly less than `id`.
pub open spec fn greatest_below(ids: Set<i32>, id: i32, p: i32) -> bool {
    &&& ids.contains(p)
    &&& p < id
    &&& forall|k: i32| ids.contains(k) && k < id ==> k <= p
}

/// Whether `g` is the greatest id of `ids`.
pub open spec fn greatest_of(ids: Set<i32>, g: i32) -> bool {
    &&& ids.contains(g)
    &&& forall|k: i32| ids.contains(k) ==> k <= g
}

/// The directory after `id` was upserted with `member`: a member that was
/// registered keeps its address and port.
pub open spec fn spec_upsert(m: Map<i32, Member>, id: i32, member: Member) -> Map<i32, Member> {
    if m.contains_key(id) {
        m.insert(
            id,
            Member { address: m[id].address, port: m[id].port, predecessor: member.predecessor },
        )
    } else {
        m.insert(id, member)
    }
}

/// The ring predecessor of `id` among `ids`: the greatest id strictly less
/// than `id`; when there is none, the search wraps around to the greatest id
/// other than `id`; `None` when no other id is registered.
pub open spec fn spec_ring_predecessor(ids: Set<i32>, id: i32) -> Option<i32> {
    if exists|p: i32| greatest_below(ids, id, p) {
        Some(choose|p: i32| greatest_below(ids, id, p))
    } else if exists|g: i32| greatest_of(ids.remove(id), g) {
        Some(choose|g: i32| greatest_of(ids.remove(id), g))
    } else {
        None
    }
}

/// A predecessor as a listed row carries it.
pub open spec fn widened(p: Option<i32>) -> Option<i64> {
    match p {
        Some(v) => Some(v as i64),
        None => None,
    }
}

/// Whether the listed row `record` says of member `id` what `member` says.
pub open spec fn row_matches(record: NodeRecord, id: i32, member: Member) -> bool {
    &&& record.id == id
    &&& record.address@ == member.address
    &&& record.port == member.port
    &&& record.predecessor == widened(member.predecessor)
}

impl View for NodeDirectory {
    type V = Map<i32, Member>;

    closed spec fn view(&self) -> Map<i32, Member> {
        self.table@.map_values(|r: Registration| r@)
    }
}

impl NodeDirectory {
    /// Well-formedness: no member is registered twice.
    pub closed spec fn wf(&self) -> bool {
        self.table.wf()
    }

    /// The members' ids in listing order.
    pub closed spec fn ids(&self) -> Seq<i32> {
        self.table.keys()
    }

    /// The listing order names every member once, and nobody else.
    pub proof fn lemma_ids(&self)
        requires
            self.wf(),
        ensures
            self.ids().no_duplicates(),
            self.ids().to_set() == self@.dom(),
            self@.dom().finite(),
            self@.dom().len() == self.ids().len(),
    {
        self.table.lemma_keys();
        assert(self@.dom() =~= self.table@.dom());
    }

    /// An empty directory.
    pub fn new() -> (directory: NodeDirectory)
        ensures
            directory.wf(),
            directory@ == Map::<i32, Member>::empty(),
            directory.ids() == Seq::<i32>::empty(),
    {
        let directory = NodeDirectory { table: Table::new() };
        assert(directory@ =~= Map::<i32, Member>::empty());
        directory
    }

    /// Number of members.
    pub fn len(&self) -> (n: usize)
        requires
            self.wf(),
        ensures
            n == self@.dom().len(),
            n == self.ids().len(),
            self@.dom().finite(),
    {
        proof {
            self.lemma_ids();
        }
        self.table.len()
    }

    /// Whether `id` is registered.
    pub fn contains(&self, id: i32) -> (known: bool)
        requires
            self.wf(),
        ensures
            known == self@.contains_key(id),
    {
        self.table.position(id).is_some()
    }

    /// The recorded predecessor of `id`: `None` when `id` is not registered,
    /// else what its record holds.
    pub fn predecessor_of(&self, id: i32) -> (recorded: Option<Option<i32>>)
        requires
            self.wf(),
        ensures
            match recorded {
                Some(p) => self@.contains_key(id) && p == self@[id].predecessor,
                None => !self@.contains_key(id),
            },
    {
        match self.table.get(id) {
            Some(r) => Some(r.predecessor),
            None => None,
        }
    }

    /// Registers `id` with `address`, `port` and `predecessor`. A member that
    /// is already registered keeps its address and port and has its
    /// predecessor replaced.
    pub fn upsert(&mut self, id: i32, address: String, port: i32, predecessor: Option<i32>)
        requires
            old(self).wf(),
        ensures
            final(self).wf(),
            final(self)@ == spec_upsert(
                old(self)@,
                id,
                Member { address: address@, port, predecessor },
            ),
            final(self).ids() == if old(self)@.contains_key(id) {
                old(self).ids()
            } else {
                old(self).ids().push(id)
            },
    {
        let registration = match self.table.get(id) {
            Some(r) => Registration { address: r.address.clone(), port: r.port, predecessor },
            None => Registration { address, port, predecessor },
        };
        self.table.put(id, registration);
        assert(self@ =~= old(self)@.insert(id, registration@));
    }

    /// Registers `id` with `address`, `port` and `predecessor`, as a plain
    /// insert does: an id that is already registered is refused, and the
    /// directory stays as it is.
    pub fn insert(
        &mut self,
        id: i32,
        address: String,
        port: i32,
        predecessor: Option<i32>,
    ) -> (outcome: Result<(), DhtError>)
        requires
            old(self).wf(),
        ensures
            final(self).wf(),
            match outcome {
                Ok(_) => !old(self)@.contains_key(id) && final(self)@ == old(self)@.insert(
                    id,
                    Member { address: address@, port, predecessor },
                ) && final(self).ids() == old(self).ids().push(id),
                Err(e) => old(self)@.contains_key(id) && e == DhtError::PersistenceFailure
                    && final(self)@ == old(self)@ && final(self).ids() == old(self).ids(),
            },
    {
        if self.contains(id) {
            Err(DhtError::PersistenceFailure)
        } else {
            self.upsert(id, address, port, predecessor);
            Ok(())
        }
    }

    /// Sets the recorded predecessor of `id` to `predecessor`. Nothing
    /// changes when `id` is not registered.
    pub fn set_predecessor(&mut self, id: i32, predecessor: i32)
        requires
            old(self).wf(),
        ensures
            final(self).wf(),
            old(self)@.contains_key(id) ==> final(self)@ == old(self)@.insert(
                id,
                Member {
                    address: old(self)@[id].address,
                    port: old(self)@[id].port,
                    predecessor: Some(predecessor),
                },
            ),
            !old(self)@.contains_key(id) ==> final(self)@ == old(self)@,
            final(self).ids() == old(self).ids(),
    {
        let found = match self.table.get(id) {
            Some(r) => Some(
                Registration {
                    address: r.address.clone(),
                    port: r.port,
                    predecessor: Some(predecessor),
                },
            ),
            None => None,
        };
        match found {
            Some(registration) => {
                self.table.put(id, registration);
                assert(self@ =~= old(self)@.insert(id, registration@));
            },
            None => {},
        }
    }

    /// The greatest registered id that is strictly less than `id`.
    pub fn find_predecessor_candidate(&self, id: i32) -> (candidate: Option<i32>)
        requires
            self.wf(),
        ensures
            match candidate {
                Some(p) => greatest_below(self@.dom(), id, p),
                None => forall|k: i32| self@.contains_key(k) ==> k >= id,
            },
    {
        proof {
            self.lemma_ids();
        }
        let mut best: Option<i32> = None;
        let mut i: usize = 0;
        while i < self.table.len()
            invariant
                self.table.wf(),
                i <= self.table.keys().len(),
                match best {
                    Some(p) => p < id && exists|j: int| 0 <= j < i && self.table.keys()[j] == p,
                    None => true,
                },
                forall|j: int|
                    0 <= j < i && (#[trigger] self.table.keys()[j]) < id ==> best is Some
                        && self.table.keys()[j] <= best->0,
            decreases self.table.keys().len() - i,
        {
            let k = self.table.key_at(i);
            if k < id {
                let better = match best {
                    Some(p) => k > p,
                    None => true,
                };
                if better {
                    best = Some(k);
                }
            }
            i = i + 1;
        }
        proof {
            let keys = self.table.keys();
            assert forall|k: i32| self@.contains_key(k) && k < id implies best is Some && k
                <= best->0 by {
                assert(keys.to_set().contains(k));
                let j = choose|j: int| 0 <= j < keys.len() && keys[j] == k;
                assert(keys[j] < id);
            }
            if let Some(p) = best {
                let j = choose|j: int| 0 <= j < i && keys[j] == p;
                assert(keys.to_set().contains(keys[j]));
            }
        }
        best
    }

    /// The greatest registered id.
    pub fn greatest(&self) -> (top: Option<i32>)
        requires
            self.wf(),
        ensures
            match top {
                Some(g) => greatest_of(self@.dom(), g),
                None => self@.dom() == Set::<i32>::empty(),
            },
    {
        proof {
            self.lemma_ids();
        }
        let mut best: Option<i32> = None;
        let mut i: usize = 0;
        while i < self.table.len()
            invariant
                self.table.wf(),
                i <= self.table.keys().len(),
                match best {
                    Some(p) => exists|j: int| 0 <= j < i && self.table.keys()[j] == p,
                    None => i == 0,
                },
                forall|j: int|
                    0 <= j < i ==> best is Some && (#[trigger] self.table.keys()[j]) <= best->0,
            decreases self.table.keys().len() - i,
        {
            let k = self.table.key_at(i);
            let better = match best {
                Some(p) => k > p,
                None => true,
            };
            if better {
                best = Some(k);
            }
            i = i + 1;
        }
        proof {
            let keys = self.table.keys();
            assert forall|k: i32| self@.contains_key(k) implies best is Some && k <= best->0 by {
                assert(keys.to_set().contains(k));
                let j = choose|j: int| 0 <= j < keys.len() && keys[j] == k;
                assert(keys[j] <= best->0);
            }
            match best {
                Some(p) => {
                    let j = choose|j: int| 0 <= j < i && keys[j] == p;
                    assert(keys.to_set().contains(keys[j]));
                },
                None => {
                    assert(self@.dom() =~= Set::<i32>::empty());
                },
            }
        }
        best
    }

    /// The ring predecessor of `id` among the members: the greatest id below
    /// `id`, or by wraparound the greatest other id.
    pub fn ring_predecessor(&self, id: i32) -> (candidate: Option<i32>)
        requires
            self.wf(),
        ensures
            candidate == spec_ring_predecessor(self@.dom(), id),
    {
        let ghost ids = self@.dom();
        match self.find_predecessor_candidate(id) {
            Some(p) => {
                proof {
                    let q = choose|q: i32| greatest_below(ids, id, q);
                    assert(greatest_below(ids, id, q));
                    assert(q <= p && p <= q);
                }
                Some(p)
            },
            None => {
                assert(!exists|p: i32| greatest_below(ids, id, p));
                match self.greatest() {
                    Some(g) => {
                        if g == id {
                            assert forall|h: i32| !greatest_of(ids.remove(id), h) by {
                                if greatest_of(ids.remove(id), h) {
                                    assert(ids.contains(h));
                                }
                            }
                            None
                        } else {
                            proof {
                                assert(greatest_of(ids.remove(id), g));
                                let h = choose|h: i32| greatest_of(ids.remove(id), h);
                                assert(greatest_of(ids.remove(id), h));
                                assert(ids.remove(id).contains(g));
                                assert(ids.remove(id).contains(h));
                                assert(h <= g && g <= h);
                            }
                            Some(g)
                        }
                    },
                    None => {
                        assert forall|h: i32| !greatest_of(ids.remove(id), h) by {
                            if greatest_of(ids.remove(id), h) {
                                assert(ids.contains(h));
                            }
                        }
                        None
                    },
                }
            },
        }
    }

    /// The ids of all members, each once, in listing order.
    pub fn member_ids(&self) -> (ids: Vec<i32>)
        requires
            self.wf(),
        ensures
            ids@ == self.ids(),
            ids@.no_duplicates(),
            ids@.to_set() == self@.dom(),
    {
        proof {
            self.lemma_ids();
        }
        let mut ids: Vec<i32> = Vec::new();
        let mut i: usize = 0;
        while i < self.table.len()
            invariant
                self.table.wf(),
                i <= self.table.keys().len(),
                ids@ == self.table.keys().take(i as int),
            decreases self.table.keys().len() - i,
        {
            let k = self.table.key_at(i);
            ids.push(k);
            assert(ids@ =~= self.table.keys().take(i + 1));
            i = i + 1;
        }
        assert(ids@ =~= self.table.keys());
        ids
    }

    /// Every member as a row, one per member, in listing order.
    pub fn list_all(&self) -> (rows: Vec<NodeRecord>)
        requires
            self.wf(),
        ensures
            rows@.len() == self.ids().len(),
            forall|i: int|
                0 <= i < rows@.len() ==> row_matches(
                    #[trigger] rows@[i],
                    self.ids()[i],
                    self@[self.ids()[i]],
                ) && self@.contains_key(self.ids()[i]),
    {
        let mut rows: Vec<NodeRecord> = Vec::new();
        let mut i: usize = 0;
        while i < self.table.len()
            invariant
                self.table.wf(),
                i <= self.table.keys().len(),
                rows@.len() == i,
                forall|j: int|
                    0 <= j < i ==> row_matches(
                        #[trigger] rows@[j],
                        self.table.keys()[j],
                        self.table@[self.table.keys()[j]]@,
                    ) && self.table@.contains_key(self.table.keys()[j]),
            decreases self.table.keys().len() - i,
        {
            let id = self.table.key_at(i);
            let r = self.table.item_at(i);
            let predecessor: Option<i64> = match r.predecessor {
                Some(p) => Some(p as i64),
                None => None,
            };
            let row = NodeRecord {
                id: id as i64,
                address: r.address.clone(),
                port: r.port as i64,
                predecessor,
            };
            let ghost before = rows@;
            rows.push(row);
            assert forall|j: int| 0 <= j < i + 1 implies row_matches(
                #[trigger] rows@[j],
                self.table.keys()[j],
                self.table@[self.table.keys()[j]]@,
            ) && self.table@.contains_key(self.table.keys()[j]) by {
                if j < i {
                    assert(rows@[j] == before[j]);
                }
            }
            i = i + 1;
        }
        rows
    }
}

} // verus!

use vstd::prelude::*;

verus! {

/// Number of general resource-kind counter slots in a record.
pub const UCOUNT_COUNTS: usize = 16;

/// Cap configured for every resource kind until `set_max` changes it.
pub const UCOUNT_MAX_DEFAULT: usize = 0x7FFF_FFFF;

/// Resource kinds metered per `(user namespace, uid)`; one namespace kind
/// per slot, `PidNamespaces` is the kind this subsystem reserves against.
#[derive(Clone, Copy, Debug, PartialEq, Eq, Structural)]
pub enum Ucount {
    UserNamespaces,
    PidNamespaces,
    UtsNamespaces,
    IpcNamespaces,
    NetNamespaces,
    MntNamespaces,
    CgroupNamespaces,
    TimeNamespaces,
}

impl Ucount {
    /// Slot of this kind in a record's counter table.
    pub open spec fn index_spec(self) -> int {
        match self {
            Ucount::UserNamespaces => 0,
            Ucount::PidNamespaces => 1,
            Ucount::UtsNamespaces => 2,
            Ucount::IpcNamespaces => 3,
            Ucount::NetNamespaces => 4,
            Ucount::MntNamespaces => 5,
            Ucount::CgroupNamespaces => 6,
            Ucount::TimeNamespaces => 7,
        }
    }

    /// Executable table slot of this kind.
    pub fn index(&self) -> (r: usize)
        ensures
            r == self.index_spec(),
            r < UCOUNT_COUNTS,
    {
        match self {
            Ucount::UserNamespaces => 0,
            Ucount::PidNamespaces => 1,
            Ucount::UtsNamespaces => 2,
            Ucount::IpcNamespaces => 3,
            Ucount::NetNamespaces => 4,
            Ucount::MntNamespaces => 5,
            Ucount::CgroupNamespaces => 6,
            Ucount::TimeNamespaces => 7,
        }
    }
}

/// Handle to a live accounting record: its registry key.
#[derive(Clone, Copy, Debug, PartialEq, Eq, Structural)]
pub struct UcKey {
    pub user_ns: usize,
    pub uid: usize,
}

/// One accounting record: per-kind object counters for a
/// `(user namespace, uid)` pair, plus a count of how many structures
/// currently hold the record.
pub struct UCounts {
    pub user_ns: usize,
    pub uid: usize,
    /// How many holders (namespaces and the like) reference this record.
    pub count: usize,
    /// Per-kind object counters, one slot per `Ucount` kind.
    pub ucount: Vec<usize>,
}

/// The process-wide accounting registry: maps `(user namespace, uid)` to the
/// live record, created lazily on first reservation and dropped once the
/// last holder releases it.  Counters never exceed the configured limits.
pub struct UCountRegistry {
    entries: Vec<UCounts>,
    limits: Vec<usize>,
}

/// The registry state for key `(u, d)` is the same in `a` and `b`.
pub open spec fn key_unchanged(a: UCountRegistry, b: UCountRegistry, u: usize, d: usize) -> bool {
    &&& b.has_entry(u, d) == a.has_entry(u, d)
    &&& b.refs_of(u, d) == a.refs_of(u, d)
    &&& forall|k: int| 0 <= k < UCOUNT_COUNTS ==> b.count_of(u, d, k) == a.count_of(u, d, k)
}

/// No key's counters, holder count, or presence changed between `a` and `b`.
pub open spec fn registry_unchanged(a: UCountRegistry, b: UCountRegistry) -> bool {
    forall|u: usize, d: usize| key_unchanged(a, b, u, d)
}

impl UCountRegistry {
    /// Number of live records.
    pub closed spec fn num_entries(self) -> int {
        self.entries@.len() as int
    }

    /// Configured limit for counter slot `k`.
    pub closed spec fn limit(self, k: int) -> nat {
        self.limits@[k] as nat
    }

    /// Record `i` is keyed by `(u, d)`.
    pub closed spec fn matches_at(self, i: int, u: usize, d: usize) -> bool {
        self.entries@[i].user_ns == u && self.entries@[i].uid == d
    }

    /// A live record for `(u, d)` exists.
    pub closed spec fn has_entry(self, u: usize, d: usize) -> bool {
        exists|i: int| 0 <= i < self.num_entries() && self.matches_at(i, u, d)
    }

    /// Index of the record keyed by `(u, d)`; meaningful when `has_entry`.
    pub closed spec fn idx_of(self, u: usize, d: usize) -> int {
        choose|i: int| 0 <= i < self.num_entries() && self.matches_at(i, u, d)
    }

    /// Counter of slot `k` for key `(u, d)`; 0 when no record exists.
    pub closed spec fn count_of(self, u: usize, d: usize, k: int) -> nat {
        if self.has_entry(u, d) {
            self.entries@[self.idx_of(u, d)].ucount@[k] as nat
        } else {
            0
        }
    }

    /// Holder count for key `(u, d)`; 0 when no record exists.
    pub closed spec fn refs_of(self, u: usize, d: usize) -> nat {
        if self.has_entry(u, d) {
            self.entries@[self.idx_of(u, d)].count as nat
        } else {
            0
        }
    }

    /// Registry invariant: one record per key, full counter tables, and
    /// every counter within its configured limit.
    pub closed spec fn wf(self) -> bool {
        &&& self.limits@.len() == UCOUNT_COUNTS
        &&& forall|i: int| 0 <= i < self.num_entries()
            ==> (#[trigger] self.entries@[i]).ucount@.len() == UCOUNT_COUNTS
        &&& forall|i: int, j: int| 0 <= i < j < self.num_entries()
            ==> !(self.matches_at(i, self.entries@[j].user_ns, self.entries@[j].uid))
        &&& forall|i: int, k: int| 0 <= i < self.num_entries() && 0 <= k < UCOUNT_COUNTS
            ==> (#[trigger] self.entries@[i].ucount@[k]) <= self.limits@[k]
    }

    /// A matching record's index is the index every spec function uses.
    proof fn lemma_match_is_idx(self, i: int, u: usize, d: usize)
        requires
            self.wf(),
            0 <= i < self.num_entries(),
            self.matches_at(i, u, d),
        ensures
            self.has_entry(u, d),
            self.idx_of(u, d) == i,
    {
        assert(self.has_entry(u, d));
        let j = self.idx_of(u, d);
        assert(0 <= j < self.num_entries() && self.matches_at(j, u, d));
        if j < i {
            assert(self.matches_at(j, self.entries@[i].user_ns, self.entries@[i].uid));
        } else if i < j {
            assert(self.matches_at(i, self.entries@[j].user_ns, self.entries@[j].uid));
        }
    }

    /// A fresh registry: no records, every limit at the default.
    pub fn new() -> (r: UCountRegistry)
        ensures
            r.wf(),
            forall|k: int| 0 <= k < UCOUNT_COUNTS ==> r.limit(k) == UCOUNT_MAX_DEFAULT,
            forall|u: usize, d: usize| !(#[trigger] r.has_entry(u, d)),
            forall|u: usize, d: usize, k: int| #[trigger] r.count_of(u, d, k) == 0,
            forall|u: usize, d: usize| #[trigger] r.refs_of(u, d) == 0,
    {
        let limits: Vec<usize> = vec![UCOUNT_MAX_DEFAULT; UCOUNT_COUNTS];
        UCountRegistry { entries: Vec::new(), limits }
    }

    /// Registries with the same records agree on every key's state.
    proof fn lemma_same_entries_unchanged(a: UCountRegistry, b: UCountRegistry)
        requires
            a.wf(),
            b.wf(),
            a.entries@ == b.entries@,
        ensures
            registry_unchanged(a, b),
    {
        assert forall|u: usize, d: usize| key_unchanged(a, b, u, d) by {
            if a.has_entry(u, d) {
                let i = a.idx_of(u, d);
                assert(0 <= i < a.num_entries() && a.matches_at(i, u, d));
                assert(b.matches_at(i, u, d));
                a.lemma_match_is_idx(i, u, d);
                b.lemma_match_is_idx(i, u, d);
            } else {
                if b.has_entry(u, d) {
                    let i = b.idx_of(u, d);
                    assert(0 <= i < b.num_entries() && b.matches_at(i, u, d));
                    assert(a.matches_at(i, u, d));
                }
            }
        }
    }

    /// A registry with the same records and limits as a well-formed one is
    /// well-formed.
    proof fn lemma_wf_from_same(a: UCountRegistry, b: UCountRegistry)
        requires
            a.wf(),
            b.entries@ == a.entries@,
            b.limits@ == a.limits@,
        ensures
            b.wf(),
    {
        assert forall|i: int| 0 <= i < b.num_entries() implies
            (#[trigger] b.entries@[i]).ucount@.len() == UCOUNT_COUNTS by {
            assert(a.entries@[i].ucount@.len() == UCOUNT_COUNTS);
        }
        assert forall|i: int, j: int| 0 <= i < j < b.num_entries() implies
            !(b.matches_at(i, b.entries@[j].user_ns, b.entries@[j].uid)) by {
            assert(!(a.matches_at(i, a.entries@[j].user_ns, a.entries@[j].uid)));
        }
        assert forall|i: int, k: int|
            0 <= i < b.num_entries() && 0 <= k < UCOUNT_COUNTS implies
            (#[trigger] b.entries@[i].ucount@[k]) <= b.limits@[k] by {
            assert(a.entries@[i].ucount@[k] <= a.limits@[k]);
        }
    }

    /// First (and, by well-formedness, only) record keyed by `(u, d)`.
    fn find(&self, u: usize, d: usize) -> (r: Option<usize>)
        requires
            self.wf(),
        ensures
            match r {
                Some(i) => {
                    &&& self.has_entry(u, d)
                    &&& self.idx_of(u, d) == i
                    &&& i < self.num_entries()
                },
                None => !self.has_entry(u, d),
            },
    {
        let mut i: usize = 0;
        while i < self.entries.len()
            invariant
                self.wf(),
                i <= self.num_entries(),
                forall|j: int| 0 <= j < i ==> !self.matches_at(j, u, d),
            decreases self.num_entries() - i,
        {
            if self.entries[i].user_ns == u && self.entries[i].uid == d {
                proof {
                    self.lemma_match_is_idx(i as int, u, d);
                }
                return Some(i);
            }
            i += 1;
        }
        None
    }

    /// Reserve one unit of `kind` against `(user_ns, uid)`: look the record
    /// up under the registry lock (creating a zeroed record on first use),
    /// bump the counter of `kind`, and roll the reservation back — returning
    /// `None` — when the configured limit is already reached.
    pub fn inc_ucounts(&mut self, user_ns: usize, uid: usize, kind: Ucount) -> (r: Option<UcKey>)
        requires
            old(self).wf(),
            old(self).refs_of(user_ns, uid) < usize::MAX,
        ensures
            final(self).wf(),
            forall|k: int| 0 <= k < UCOUNT_COUNTS
                ==> final(self).limit(k) == old(self).limit(k),
            r is Some <==> old(self).count_of(user_ns, uid, kind.index_spec())
                < old(self).limit(kind.index_spec()),
            (match r {
                Some(key) => {
                    &&& key == (UcKey { user_ns, uid })
                    &&& final(self).has_entry(user_ns, uid)
                    &&& final(self).count_of(user_ns, uid, kind.index_spec())
                        == old(self).count_of(user_ns, uid, kind.index_spec()) + 1
                    &&& final(self).refs_of(user_ns, uid)
                        == old(self).refs_of(user_ns, uid) + 1
                    &&& forall|k2: int| 0 <= k2 < UCOUNT_COUNTS && k2 != kind.index_spec()
                        ==> final(self).count_of(user_ns, uid, k2)
                            == old(self).count_of(user_ns, uid, k2)
                    &&& forall|u2: usize, d2: usize| !(u2 == user_ns && d2 == uid)
                        ==> key_unchanged(*old(self), *final(self), u2, d2)
                },
                None => registry_unchanged(*old(self), *final(self)),
            }),
    {
        let ghost a = *old(self);
        let k: usize = kind.index();
        let found: Option<usize> = self.find(user_ns, uid);
        let mut fresh: bool = false;
        let mut idx: usize = 0;
        match found {
            Some(i) => {
                idx = i;
            },
            None => {
                let zeros: Vec<usize> = vec![0usize; UCOUNT_COUNTS];
                let rec = UCounts { user_ns, uid, count: 0, ucount: zeros };
                idx = self.entries.len();
                self.entries.push(rec);
                fresh = true;
                proof {
                    assert forall|i: int| 0 <= i < self.num_entries() implies
                        (#[trigger] self.entries@[i]).ucount@.len() == UCOUNT_COUNTS by {
                        if i < a.num_entries() {
                            assert(a.entries@[i].ucount@.len() == UCOUNT_COUNTS);
                        }
                    }
                    assert forall|i: int, j: int| 0 <= i < j < self.num_entries() implies
                        !(self.matches_at(i, self.entries@[j].user_ns, self.entries@[j].uid)) by {
                        if j < a.num_entries() {
                            assert(!(a.matches_at(i, a.entries@[j].user_ns, a.entries@[j].uid)));
                        } else {
                            assert(!a.matches_at(i, user_ns, uid));
                        }
                    }
                    assert forall|i: int, k2: int|
                        0 <= i < self.num_entries() && 0 <= k2 < UCOUNT_COUNTS implies
                        (#[trigger] self.entries@[i].ucount@[k2]) <= self.limits@[k2] by {
                        if i < a.num_entries() {
                            assert(a.entries@[i].ucount@[k2] <= a.limits@[k2]);
                        }
                    }
                    assert(self.wf());
                    self.lemma_match_is_idx(idx as int, user_ns, uid);
                }
            },
        }
        let ghost mid = *self;
        proof {
            assert(mid.wf());
            assert(mid.matches_at(idx as int, user_ns, uid));
            assert(mid.idx_of(user_ns, uid) == idx as int);
            if fresh {
                assert(!a.has_entry(user_ns, uid));
                assert(mid.entries@[idx as int].ucount@[k as int] == 0);
                assert(mid.entries@[idx as int].count == 0);
            } else {
                assert(a == mid);
            }
        }
        let c: usize = self.entries[idx].ucount[k];
        let lim: usize = self.limits[k];
        if c < lim {
            self.entries[idx].ucount[k] = c + 1;
            let rc: usize = self.entries[idx].count;
            proof {
                if !fresh {
                    assert(a.refs_of(user_ns, uid) == a.entries@[idx as int].count);
                }
            }
            self.entries[idx].count = rc + 1;
            proof {
                let b = *self;
                assert(b.entries@ =~= mid.entries@.update(
                    idx as int,
                    b.entries@[idx as int],
                ));
                assert forall|i: int| 0 <= i < b.num_entries() implies
                    (#[trigger] b.entries@[i]).ucount@.len() == UCOUNT_COUNTS by {
                    assert(mid.entries@[i].ucount@.len() == UCOUNT_COUNTS);
                    if i == idx as int {
                        assert(b.entries@[i].ucount@ == mid.entries@[i].ucount@.update(
                            k as int, (c + 1) as usize));
                    }
                }
                assert forall|i: int, j: int| 0 <= i < j < b.num_entries() implies
                    !(b.matches_at(i, b.entries@[j].user_ns, b.entries@[j].uid)) by {
                    assert(b.entries@[i].user_ns == mid.entries@[i].user_ns);
                    assert(b.entries@[i].uid == mid.entries@[i].uid);
                    assert(b.entries@[j].user_ns == mid.entries@[j].user_ns);
                    assert(b.entries@[j].uid == mid.entries@[j].uid);
                    assert(!(mid.matches_at(i, mid.entries@[j].user_ns, mid.entries@[j].uid)));
                }
                assert forall|i: int, k2: int|
                    0 <= i < b.num_entries() && 0 <= k2 < UCOUNT_COUNTS implies
                    (#[trigger] b.entries@[i].ucount@[k2]) <= b.limits@[k2] by {
                    assert(mid.entries@[i].ucount@[k2] <= mid.limits@[k2]);
                    if i == idx as int {
                        assert(b.entries@[i].ucount@ == mid.entries@[i].ucount@.update(
                            k as int, (c + 1) as usize));
                    }
                }
                assert(b.wf());
                b.lemma_match_is_idx(idx as int, user_ns, uid);
                assert(b.count_of(user_ns, uid, k as int) == c + 1);
                assert(b.refs_of(user_ns, uid) == rc + 1);
                assert forall|u2: usize, d2: usize| !(u2 == user_ns && d2 == uid) implies
                    key_unchanged(a, b, u2, d2) by {
                    if a.has_entry(u2, d2) {
                        let i = a.idx_of(u2, d2);
                        assert(0 <= i < a.num_entries() && a.matches_at(i, u2, d2));
                        assert(i != idx as int);
                        assert(b.matches_at(i, u2, d2));
                        assert(b.entries@[i] == a.entries@[i]);
                        b.lemma_match_is_idx(i, u2, d2);
                        a.lemma_match_is_idx(i, u2, d2);
                    } else {
                        if b.has_entry(u2, d2) {
                            let i = b.idx_of(u2, d2);
                            assert(0 <= i < b.num_entries() && b.matches_at(i, u2, d2));
                            assert(i != idx as int);
                            assert(a.matches_at(i, u2, d2));
                        }
                    }
                }
            }
            Some(UcKey { user_ns, uid })
        } else {
            if fresh {
                let _ = self.entries.pop();
                proof {
                    assert(self.entries@ =~= a.entries@);
                    Self::lemma_wf_from_same(a, *self);
                    Self::lemma_same_entries_unchanged(a, *self);
                }
            } else {
                proof {
                    assert(*self == a);
                    assert forall|u2: usize, d2: usize|
                        key_unchanged(a, *self, u2, d2) by {}
                }
            }
            None
        }
    }

    /// Release one unit of `kind` held under `uc`: the counter and the
    /// holder count drop by one, and the record is removed once no holder
    /// is left.  Calls must pair with successful reservations, so both are
    /// positive on entry.
    pub fn dec_ucount(&mut self, uc: UcKey, kind: Ucount)
        requires
            old(self).wf(),
            old(self).has_entry(uc.user_ns, uc.uid),
            old(self).count_of(uc.user_ns, uc.uid, kind.index_spec()) >= 1,
            old(self).refs_of(uc.user_ns, uc.uid) >= 1,
        ensures
            final(self).wf(),
            forall|k: int| 0 <= k < UCOUNT_COUNTS
                ==> final(self).limit(k) == old(self).limit(k),
            forall|u2: usize, d2: usize| !(u2 == uc.user_ns && d2 == uc.uid)
                ==> key_unchanged(*old(self), *final(self), u2, d2),
            old(self).refs_of(uc.user_ns, uc.uid) == 1
                ==> !final(self).has_entry(uc.user_ns, uc.uid),
            old(self).refs_of(uc.user_ns, uc.uid) > 1 ==> {
                &&& final(self).has_entry(uc.user_ns, uc.uid)
                &&& final(self).refs_of(uc.user_ns, uc.uid)
                    == old(self).refs_of(uc.user_ns, uc.uid) - 1
                &&& final(self).count_of(uc.user_ns, uc.uid, kind.index_spec())
                    == old(self).count_of(uc.user_ns, uc.uid, kind.index_spec()) - 1
                &&& forall|k2: int| 0 <= k2 < UCOUNT_COUNTS && k2 != kind.index_spec()
                    ==> final(self).count_of(uc.user_ns, uc.uid, k2)
                        == old(self).count_of(uc.user_ns, uc.uid, k2)
            },
    {
        let ghost a = *old(self);
        let k: usize = kind.index();
        let found: Option<usize> = self.find(uc.user_ns, uc.uid);
        let idx: usize = found.unwrap();
        let c: usize = self.entries[idx].ucount[k];
        self.entries[idx].ucount[k] = c - 1;
        let rc: usize = self.entries[idx].count;
        self.entries[idx].count = rc - 1;
        let ghost mid = *self;
        proof {
            assert(a.count_of(uc.user_ns, uc.uid, k as int) == c);
            assert(a.refs_of(uc.user_ns, uc.uid) == rc);
            assert(mid.entries@ =~= a.entries@.update(idx as int, mid.entries@[idx as int]));
            assert(mid.entries@[idx as int].ucount@ == a.entries@[idx as int].ucount@.update(
                k as int, (c - 1) as usize));
            assert forall|i: int| 0 <= i < mid.num_entries() implies
                (#[trigger] mid.entries@[i]).ucount@.len() == UCOUNT_COUNTS by {
                assert(a.entries@[i].ucount@.len() == UCOUNT_COUNTS);
            }
            assert forall|i: int, j: int| 0 <= i < j < mid.num_entries() implies
                !(mid.matches_at(i, mid.entries@[j].user_ns, mid.entries@[j].uid)) by {
                assert(mid.entries@[i].user_ns == a.entries@[i].user_ns);
                assert(mid.entries@[i].uid == a.entries@[i].uid);
                assert(mid.entries@[j].user_ns == a.entries@[j].user_ns);
                assert(mid.entries@[j].uid == a.entries@[j].uid);
                assert(!(a.matches_at(i, a.entries@[j].user_ns, a.entries@[j].uid)));
            }
            assert forall|i: int, k2: int|
                0 <= i < mid.num_entries() && 0 <= k2 < UCOUNT_COUNTS implies
                (#[trigger] mid.entries@[i].ucount@[k2]) <= mid.limits@[k2] by {
                assert(a.entries@[i].ucount@[k2] <= a.limits@[k2]);
            }
            assert(mid.wf());
            mid.lemma_match_is_idx(idx as int, uc.user_ns, uc.uid);
        }
        if rc - 1 == 0 {
            let _ = self.entries.swap_remove(idx);
            proof {
                let b = *self;
                assert(b.entries@ == mid.entries@.update(
                    idx as int, mid.entries@.last()).drop_last());
                assert(b.num_entries() == mid.num_entries() - 1);
                // every record of b is a record of mid at an index other than idx
                assert forall|i: int| 0 <= i < b.num_entries() implies
                    exists|j: int| 0 <= j < mid.num_entries() && j != idx as int
                        && mid.entries@[j] == #[trigger] b.entries@[i] by {
                    if i == idx as int && idx as int != mid.num_entries() - 1 {
                        assert(mid.entries@[mid.num_entries() - 1] == b.entries@[i]);
                    } else {
                        assert(mid.entries@[i] == b.entries@[i]);
                    }
                }
                assert forall|i: int| 0 <= i < b.num_entries() implies
                    (#[trigger] b.entries@[i]).ucount@.len() == UCOUNT_COUNTS by {
                    let j = choose|j: int| 0 <= j < mid.num_entries() && j != idx as int
                        && mid.entries@[j] == b.entries@[i];
                    assert(mid.entries@[j].ucount@.len() == UCOUNT_COUNTS);
                }
                assert forall|i: int, k2: int|
                    0 <= i < b.num_entries() && 0 <= k2 < UCOUNT_COUNTS implies
                    (#[trigger] b.entries@[i].ucount@[k2]) <= b.limits@[k2] by {
                    let j = choose|j: int| 0 <= j < mid.num_entries() && j != idx as int
                        && mid.entries@[j] == b.entries@[i];
                    assert(mid.entries@[j].ucount@[k2] <= mid.limits@[k2]);
                }
                assert forall|i: int, j: int| 0 <= i < j < b.num_entries() implies
                    !(b.matches_at(i, b.entries@[j].user_ns, b.entries@[j].uid)) by {
                    let last = mid.num_entries() - 1;
                    let i0: int = if i == idx as int && idx as int != last { last } else { i };
                    let j0: int = if j == idx as int && idx as int != last { last } else { j };
                    assert(b.entries@[i] == mid.entries@[i0]);
                    assert(b.entries@[j] == mid.entries@[j0]);
                    assert(i0 != j0);
                    if i0 < j0 {
                        assert(!(mid.matches_at(i0, mid.entries@[j0].user_ns,
                            mid.entries@[j0].uid)));
                    } else {
                        assert(!(mid.matches_at(j0, mid.entries@[i0].user_ns,
                            mid.entries@[i0].uid)));
                    }
                }
                assert(b.wf());
                // the released key has no record left
                assert forall|i: int| 0 <= i < b.num_entries() implies
                    !(b.matches_at(i, uc.user_ns, uc.uid)) by {
                    let last = mid.num_entries() - 1;
                    let i0: int = if i == idx as int && idx as int != last { last } else { i };
                    assert(b.entries@[i] == mid.entries@[i0]);
                    assert(i0 != idx as int);
                    if (idx as int) < i0 {
                        assert(!(mid.matches_at(idx as int, mid.entries@[i0].user_ns,
                            mid.entries@[i0].uid)));
                    } else {
                        assert(!(mid.matches_at(i0, mid.entries@[idx as int].user_ns,
                            mid.entries@[idx as int].uid)));
                    }
                    assert(mid.matches_at(idx as int, uc.user_ns, uc.uid));
                }
                assert(!b.has_entry(uc.user_ns, uc.uid));
                // all other keys keep their state
                assert forall|u2: usize, d2: usize| !(u2 == uc.user_ns && d2 == uc.uid) implies
                    key_unchanged(a, b, u2, d2) by {
                    let last = mid.num_entries() - 1;
                    if a.has_entry(u2, d2) {
                        let i = a.idx_of(u2, d2);
                        assert(0 <= i < a.num_entries() && a.matches_at(i, u2, d2));
                        assert(i != idx as int);
                        assert(mid.entries@[i] == a.entries@[i]);
                        let i1: int = if i == last { idx as int } else { i };
                        assert(b.entries@[i1] == mid.entries@[i]);
                        assert(0 <= i1 < b.num_entries());
                        assert(b.matches_at(i1, u2, d2));
                        b.lemma_match_is_idx(i1, u2, d2);
                        a.lemma_match_is_idx(i, u2, d2);
                    } else {
                        if b.has_entry(u2, d2) {
                            let i = b.idx_of(u2, d2);
                            assert(0 <= i < b.num_entries() && b.matches_at(i, u2, d2));
                            let i0: int = if i == idx as int && idx as int != last {
                                last
                            } else {
                                i
                            };
                            assert(b.entries@[i] == mid.entries@[i0]);
                            assert(a.matches_at(i0, u2, d2));
                        }
                    }
                }
            }
        } else {
            proof {
                let b = *self;
                assert(b == mid);
                assert(b.count_of(uc.user_ns, uc.uid, k as int) == c - 1);
                assert(b.refs_of(uc.user_ns, uc.uid) == rc - 1);
                assert forall|u2: usize, d2: usize| !(u2 == uc.user_ns && d2 == uc.uid) implies
                    key_unchanged(a, b, u2, d2) by {
                    if a.has_entry(u2, d2) {
                        let i = a.idx_of(u2, d2);
                        assert(0 <= i < a.num_entries() && a.matches_at(i, u2, d2));
                        assert(i != idx as int);
                        assert(b.entries@[i] == a.entries@[i]);
                        assert(b.matches_at(i, u2, d2));
                        b.lemma_match_is_idx(i, u2, d2);
                        a.lemma_match_is_idx(i, u2, d2);
                    } else {
                        if b.has_entry(u2, d2) {
                            let i = b.idx_of(u2, d2);
                            assert(0 <= i < b.num_entries() && b.matches_at(i, u2, d2));
                            assert(i != idx as int);
                            assert(a.matches_at(i, u2, d2));
                        }
                    }
                }
            }
        }
    }

    /// Counters are monotonically bounded by the configured limit: in any
    /// well-formed registry no key's counter exceeds its kind's limit, so a
    /// run of successful reservations stops, at the latest, at the limit.
    pub proof fn lemma_counter_bounded_by_limit(self, u: usize, d: usize, k: int)
        requires
            self.wf(),
            0 <= k < UCOUNT_COUNTS,
        ensures
            self.count_of(u, d, k) <= self.limit(k),
    {
        if self.has_entry(u, d) {
            let i = self.idx_of(u, d);
            assert(0 <= i < self.num_entries() && self.matches_at(i, u, d));
            assert(self.entries@[i].ucount@[k] <= self.limits@[k]);
        }
    }

    /// Current counter of `kind` for `(user_ns, uid)`; 0 without a record.
    pub fn get_count(&self, user_ns: usize, uid: usize, kind: Ucount) -> (r: usize)
        requires
            self.wf(),
        ensures
            r == self.count_of(user_ns, uid, kind.index_spec()),
    {
        match self.find(user_ns, uid) {
            Some(i) => self.entries[i].ucount[kind.index()],
            None => 0,
        }
    }

    /// Current holder count for `(user_ns, uid)`; 0 without a record.
    pub fn get_refs(&self, user_ns: usize, uid: usize) -> (r: usize)
        requires
            self.wf(),
        ensures
            r == self.refs_of(user_ns, uid),
    {
        match self.find(user_ns, uid) {
            Some(i) => self.entries[i].count,
            None => 0,
        }
    }

    /// Configured limit of `kind`.
    pub fn get_limit(&self, kind: Ucount) -> (r: usize)
        requires
            self.wf(),
        ensures
            r == self.limit(kind.index_spec()),
    {
        self.limits[kind.index()]
    }

    /// Configure the limit of `kind`; every current counter of that kind
    /// must already fit under the new limit.
    pub fn set_max(&mut self, kind: Ucount, limit: usize)
        requires
            old(self).wf(),
            forall|u: usize, d: usize|
                #[trigger] old(self).count_of(u, d, kind.index_spec()) <= limit,
        ensures
            final(self).wf(),
            final(self).limit(kind.index_spec()) == limit,
            forall|k: int| 0 <= k < UCOUNT_COUNTS && k != kind.index_spec()
                ==> final(self).limit(k) == old(self).limit(k),
            registry_unchanged(*old(self), *final(self)),
    {
        let k: usize = kind.index();
        self.limits[k] = limit;
        proof {
            let a = *old(self);
            let b = *self;
            assert forall|i: int, k2: int|
                0 <= i < b.num_entries() && 0 <= k2 < UCOUNT_COUNTS implies
                (#[trigger] b.entries@[i].ucount@[k2]) <= b.limits@[k2] by {
                let e = a.entries@[i];
                if k2 == kind.index_spec() {
                    a.lemma_match_is_idx(i, e.user_ns, e.uid);
                    assert(a.count_of(e.user_ns, e.uid, k2) == e.ucount@[k2]);
                    assert(a.count_of(e.user_ns, e.uid, k2) <= limit);
                } else {
                    assert(e.ucount@[k2] <= a.limits@[k2]);
                }
            }
            assert(b.entries@ == a.entries@);
            assert forall|i: int| 0 <= i < b.num_entries() implies
                (#[trigger] b.entries@[i]).ucount@.len() == UCOUNT_COUNTS by {
                assert(a.entries@[i].ucount@.len() == UCOUNT_COUNTS);
            }
            assert forall|i: int, j: int| 0 <= i < j < b.num_entries() implies
                !(b.matches_at(i, b.entries@[j].user_ns, b.entries@[j].uid)) by {
                assert(!(a.matches_at(i, a.entries@[j].user_ns, a.entries@[j].uid)));
            }
            assert(b.wf());
            Self::lemma_same_entries_unchanged(a, b);
        }
    }
}

} // verus!

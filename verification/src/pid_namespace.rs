use vstd::prelude::*;

use crate::error::SysError;
use crate::id_alloc::IdAllocator;
use crate::ucount::{key_unchanged, registry_unchanged, UcKey, Ucount, UCountRegistry, UCOUNT_COUNTS};

verus! {

/// Counter slot of the pid-namespaces resource kind.
pub open spec fn pidns_kind() -> int {
    Ucount::PidNamespaces.index_spec()
}

/// The registry `b` is `a` with one pid-namespaces unit newly reserved for
/// `(user_ns, uid)` and nothing else changed.
pub open spec fn pidns_reserved(
    a: UCountRegistry,
    b: UCountRegistry,
    user_ns: usize,
    uid: usize,
) -> bool {
    &&& b.has_entry(user_ns, uid)
    &&& b.count_of(user_ns, uid, pidns_kind()) == a.count_of(user_ns, uid, pidns_kind()) + 1
    &&& b.refs_of(user_ns, uid) == a.refs_of(user_ns, uid) + 1
    &&& forall|k2: int| 0 <= k2 < UCOUNT_COUNTS && k2 != pidns_kind()
        ==> b.count_of(user_ns, uid, k2) == a.count_of(user_ns, uid, k2)
    &&& forall|u2: usize, d2: usize| !(u2 == user_ns && d2 == uid)
        ==> key_unchanged(a, b, u2, d2)
    &&& forall|k: int| 0 <= k < UCOUNT_COUNTS ==> b.limit(k) == a.limit(k)
}

/// Greatest local PID number a namespace allocator may issue.
pub const PID_MAX: usize = 4096;

/// Greatest depth of the namespace tree; creation beyond it fails.
pub const MAX_PID_NS_LEVEL: usize = 32;

/// Sentinel marking `pid_allocated` while a namespace is still being built.
pub const PIDNS_ADDING: u32 = 0x8000_0000;

/// Greatest PID number a caller may request explicitly.
pub const INT16_MAX: usize = 32767;

/// Process-creation flag bit identifying the PID namespace kind.
pub const CLONE_NEWPID: u64 = 0x2000_0000;

/// A process identifier value, local to one namespace.
#[derive(Clone, Copy, Debug, PartialEq, Eq, Structural)]
pub struct Pid {
    pub value: usize,
}

impl Pid {
    /// A PID with the given raw value.
    pub fn new(value: usize) -> (r: Pid)
        ensures
            r.value == value,
    {
        Pid { value }
    }

    /// Raw value of the PID.
    pub fn data(&self) -> (r: usize)
        ensures
            r == self.value,
    {
        self.value
    }
}

/// Bitset of process-creation flags.
#[derive(Clone, Copy, Debug, PartialEq, Eq, Structural)]
pub struct CloneFlags {
    pub bits: u64,
}

impl CloneFlags {
    /// Flags from raw bits.
    pub fn new(bits: u64) -> (r: CloneFlags)
        ensures
            r.bits == bits,
    {
        CloneFlags { bits }
    }
}

/// Stand-in for the cached filesystem reference a PID carries; the
/// filesystem itself is an external collaborator of this subsystem.
#[derive(Clone, Copy, Debug, PartialEq, Eq, Structural)]
pub struct InodeRef {}

/// One `(namespace, local PID number)` pair: a process's identity at one
/// namespace level.  The namespace is referenced by its index in the tree.
#[derive(Clone, Copy, Debug, PartialEq, Eq, Structural)]
pub struct UPid {
    /// Local PID number inside `ns`.
    pub nr: Pid,
    /// Index of the owning namespace in the tree.
    pub ns: usize,
}

/// A process's PID identity across every namespace level it is visible in:
/// `numbers` is ordered root first, the home namespace last, and
/// `numbers[level]` is the process's PID in its home namespace.
#[derive(Clone, Debug)]
pub struct PidStrcut {
    /// Index of the deepest (most specific) level.
    pub level: usize,
    /// One entry per namespace level, root first.
    pub numbers: Vec<UPid>,
    /// Cached filesystem reference.
    pub stashed: InodeRef,
}

/// A node of the PID-namespace tree: local allocator, depth, parent link,
/// owning user namespace, accounting handle and orphan-reaper process.
#[derive(Clone, Debug)]
pub struct PidNamespace {
    /// Local PID-number allocator over `[1, PID_MAX]`, owned by this node.
    pub id_allocator: IdAllocator,
    /// Count of numbers issued; carries `PIDNS_ADDING` while under
    /// construction.
    pub pid_allocated: u32,
    /// Depth from the root namespace (root = 0).
    pub level: usize,
    /// Enclosing namespace, or `None` at a root.
    pub parent: Option<usize>,
    /// Accounting record this namespace holds one pid-namespaces unit of.
    pub ucounts: UcKey,
    /// The user namespace that owns this PID namespace.
    pub user_ns: usize,
    /// PID of the process adopting orphaned descendants in this namespace.
    pub child_reaper: Pid,
}

impl Default for PidNamespace {
    /// A root namespace as the kernel bootstraps it: level 0, no parent,
    /// one number accounted as issued, reaper PID 1, empty allocator.
    fn default() -> (r: PidNamespace)
        ensures
            r.level == 0,
            r.parent is None,
            r.pid_allocated == 1,
            r.child_reaper.value == 1,
            r.ucounts == (UcKey { user_ns: 0, uid: 0 }),
            r.user_ns == 0,
            r.id_allocator.wf(),
            r.id_allocator.min_id_spec() == 1,
            r.id_allocator.capacity() == PID_MAX,
            forall|id: usize| !r.id_allocator.is_used(id),
    {
        let id_allocator = IdAllocator::new(1, PID_MAX).unwrap();
        PidNamespace {
            id_allocator,
            pid_allocated: 1,
            level: 0,
            parent: None,
            ucounts: UcKey { user_ns: 0, uid: 0 },
            user_ns: 0,
            child_reaper: Pid { value: 1 },
        }
    }
}

impl Default for PidStrcut {
    /// The bootstrap identity: a single entry, PID 0 in the tree's first
    /// root namespace.
    fn default() -> (r: PidStrcut)
        ensures
            r.level == 0,
            r.numbers@.len() == 1,
            r.numbers@[0].nr.value == 0,
            r.numbers@[0].ns == 0,
    {
        PidStrcut {
            level: 0,
            numbers: vec![UPid { nr: Pid { value: 0 }, ns: 0 }],
            stashed: InodeRef {},
        }
    }
}

/// Per-process bundle of active namespace memberships; the installation
/// protocol writes the selected namespace into it.
#[derive(Clone, Copy, Debug, PartialEq, Eq, Structural)]
pub struct NsProxy {
    /// Index of the process's PID namespace in the tree.
    pub pid_namespace: usize,
}

/// The set of namespaces a process is being moved into.
#[derive(Clone, Copy, Debug, PartialEq, Eq, Structural)]
pub struct NsSet {
    /// The namespace proxy the installation protocol mutates.
    pub nsproxy: NsProxy,
}

/// The closed set of namespace kinds of the containment layer.
#[derive(Clone, Copy, Debug, PartialEq, Eq, Structural)]
pub enum NsType {
    Pid,
    User,
    Uts,
    Ipc,
    Net,
    Mnt,
    Cgroup,
    Time,
}

/// Creation-flag bit reserved for each namespace kind.
pub open spec fn clone_flag_of(t: NsType) -> u64 {
    match t {
        NsType::Pid => 0x2000_0000,
        NsType::User => 0x1000_0000,
        NsType::Uts => 0x0400_0000,
        NsType::Ipc => 0x0800_0000,
        NsType::Net => 0x4000_0000,
        NsType::Mnt => 0x0002_0000,
        NsType::Cgroup => 0x0200_0000,
        NsType::Time => 0x0000_0080,
    }
}

impl NsType {
    /// The creation-flag bit identifying this namespace kind.
    pub fn clone_flag(&self) -> (r: CloneFlags)
        ensures
            r.bits == clone_flag_of(*self),
    {
        match self {
            NsType::Pid => CloneFlags { bits: 0x2000_0000 },
            NsType::User => CloneFlags { bits: 0x1000_0000 },
            NsType::Uts => CloneFlags { bits: 0x0400_0000 },
            NsType::Ipc => CloneFlags { bits: 0x0800_0000 },
            NsType::Net => CloneFlags { bits: 0x4000_0000 },
            NsType::Mnt => CloneFlags { bits: 0x0002_0000 },
            NsType::Cgroup => CloneFlags { bits: 0x0200_0000 },
            NsType::Time => CloneFlags { bits: 0x0000_0080 },
        }
    }
}

/// Per-kind namespace operations descriptor: the stable kind name and the
/// clone flag of the PID namespace kind.
#[derive(Clone, Debug)]
pub struct PidNsOperations {
    pub name: String,
    pub clone_flags: CloneFlags,
}

impl PidNsOperations {
    /// A descriptor for the PID namespace kind under the given name.
    pub fn new(name: String) -> (r: PidNsOperations)
        ensures
            r.name@ == name@,
            r.clone_flags.bits == CLONE_NEWPID,
    {
        PidNsOperations { name, clone_flags: CloneFlags { bits: CLONE_NEWPID } }
    }
}

/// The two nodes agree on everything but allocator contents.
pub open spec fn ns_meta_eq(a: PidNamespace, b: PidNamespace) -> bool {
    &&& a.pid_allocated == b.pid_allocated
    &&& a.level == b.level
    &&& a.parent == b.parent
    &&& a.ucounts == b.ucounts
    &&& a.user_ns == b.user_ns
    &&& a.child_reaper == b.child_reaper
    &&& a.id_allocator.min_id_spec() == b.id_allocator.min_id_spec()
    &&& a.id_allocator.capacity() == b.id_allocator.capacity()
}

/// The requested-numbers list is acceptable for a namespace at `level`:
/// at most one number per level, each within `[1, INT16_MAX]`.
pub open spec fn valid_request(level: int, tids: Seq<usize>) -> bool {
    &&& tids.len() <= level + 1
    &&& forall|j: int| 0 <= j < tids.len() ==> 1 <= #[trigger] tids[j] <= INT16_MAX
}

/// Namespace `m` of `post` is namespace `m` of `pre` with the one fresh
/// number `id` newly issued and nothing else changed.
pub open spec fn fresh_issue(pre: PidNsTree, post: PidNsTree, m: int, id: usize) -> bool {
    &&& pre.issuable(m, id)
    &&& post.used(m, id)
    &&& forall|o: usize| o != id ==> post.used(m, o) == pre.used(m, o)
    &&& ns_meta_eq(post.node(m), pre.node(m))
}

/// Success contract of `alloc_pid`: one entry per level of the target's
/// ancestor chain, root first; caller-requested numbers fill the deepest
/// levels verbatim, every shallower level got a fresh number from its own
/// namespace's allocator, and no other namespace changed.
pub open spec fn alloc_pid_ok(
    pre: PidNsTree,
    post: PidNsTree,
    ns: usize,
    tids: Seq<usize>,
    p: PidStrcut,
) -> bool {
    let level = pre.level_of(ns as int);
    let auto = level + 1 - tids.len();
    &&& p.level == level
    &&& p.numbers@.len() == level + 1
    &&& post.len_spec() == pre.len_spec()
    &&& forall|i: int| 0 <= i <= level
        ==> (#[trigger] p.numbers@[i]).ns == pre.chain(ns as int)[i]
    &&& forall|i: int| 0 <= i <= level
        ==> pre.level_of((#[trigger] p.numbers@[i]).ns as int) == i
    &&& forall|i: int| auto <= i <= level
        ==> (#[trigger] p.numbers@[i]).nr.value == tids[i - auto]
    &&& forall|i: int| 0 <= i < auto
        ==> fresh_issue(pre, post, pre.chain(ns as int)[i], (#[trigger] p.numbers@[i]).nr.value)
    &&& forall|m: int|
        0 <= m < pre.len_spec()
            && !(exists|i: int| 0 <= i < auto && #[trigger] pre.chain(ns as int)[i] == m)
            ==> #[trigger] post.node(m) == pre.node(m)
}

/// The allocators `alloc_pid` would draw from are not exhausted.  Reserved
/// space makes exhaustion here an internal-consistency fault, so it is a
/// caller obligation, not a run-time error.
pub open spec fn alloc_feasible(t: PidNsTree, ns: usize, tids: Seq<usize>) -> bool {
    valid_request(t.level_of(ns as int), tids)
        ==> forall|i: int|
            0 <= i < t.level_of(ns as int) + 1 - tids.len()
            ==> !(#[trigger] t.node(t.chain(ns as int)[i])).id_allocator.full()
}

/// The forest of PID namespaces.  Nodes are referenced by index; parent
/// links only ever point toward a root, so the structure is acyclic.
pub struct PidNsTree {
    pub nodes: Vec<PidNamespace>,
}

impl PidNsTree {
    /// Number of namespaces in the tree.
    pub open spec fn len_spec(self) -> int {
        self.nodes@.len() as int
    }

    /// Namespace node at index `i`.
    pub open spec fn node(self, i: int) -> PidNamespace {
        self.nodes@[i]
    }

    /// Depth of node `i`.
    pub open spec fn level_of(self, i: int) -> int {
        self.node(i).level as int
    }

    /// Local PID number `id` is currently issued in namespace `i`.
    pub open spec fn used(self, i: int, id: usize) -> bool {
        self.node(i).id_allocator.is_used(id)
    }

    /// `id` may be issued by namespace `i`'s allocator: in range and free.
    pub open spec fn issuable(self, i: int, id: usize) -> bool {
        1 <= id <= PID_MAX && !self.used(i, id)
    }

    /// Node `i` is structurally sound: bounded level, a parent one level
    /// shallower (or a root at level 0), and an allocator over `[1, PID_MAX]`.
    pub open spec fn node_wf(self, i: int) -> bool {
        &&& self.node(i).level <= MAX_PID_NS_LEVEL
        &&& match self.node(i).parent {
            Option::None => self.node(i).level == 0,
            Option::Some(p) => {
                &&& (p as int) < self.len_spec()
                &&& self.node(p as int).level + 1 == self.node(i).level
            },
        }
        &&& self.node(i).id_allocator.wf()
        &&& self.node(i).id_allocator.min_id_spec() == 1
        &&& self.node(i).id_allocator.capacity() == PID_MAX
    }

    /// Tree invariant: every node is structurally sound.
    pub open spec fn wf(self) -> bool {
        forall|i: int| 0 <= i < self.len_spec() ==> #[trigger] self.node_wf(i)
    }

    /// Ancestor chain of node `i`: indices root first, `i` itself last.
    pub open spec fn chain(self, i: int) -> Seq<int>
        decreases self.level_of(i),
    {
        match self.node(i).parent {
            Option::None => seq![i],
            Option::Some(p) => if self.level_of(p as int) < self.level_of(i) {
                self.chain(p as int).push(i)
            } else {
                seq![i]
            },
        }
    }

    /// `a` is a strict ancestor of `d`: it sits on `d`'s chain above it.
    pub open spec fn is_proper_ancestor(self, a: int, d: int) -> bool {
        self.level_of(a) < self.level_of(d) && self.chain(d)[self.level_of(a)] == a
    }

    /// Shape of the ancestor chain of a sound node: one entry per level,
    /// ending at the node itself, each entry the parent of the next.
    pub proof fn lemma_chain(self, i: int)
        requires
            self.wf(),
            0 <= i < self.len_spec(),
        ensures
            self.chain(i).len() == self.level_of(i) + 1,
            self.chain(i)[self.level_of(i)] == i,
            forall|j: int| 0 <= j <= self.level_of(i) ==> {
                &&& 0 <= #[trigger] self.chain(i)[j] < self.len_spec()
                &&& self.level_of(self.chain(i)[j]) == j
            },
            forall|j: int| 1 <= j <= self.level_of(i)
                ==> self.node(#[trigger] self.chain(i)[j]).parent
                    == Option::Some(self.chain(i)[j - 1] as usize),
        decreases self.level_of(i),
    {
        assert(self.node_wf(i));
        match self.node(i).parent {
            Option::None => {},
            Option::Some(p) => {
                self.lemma_chain(p as int);
            },
        }
    }

    /// A tree that keeps every old node's level and parent link keeps every
    /// old node's ancestor chain, whatever else (allocator state, new nodes
    /// appended at the end) changed.
    pub proof fn lemma_chain_prefix(self, other: PidNsTree, i: int)
        requires
            self.wf(),
            0 <= i < self.len_spec(),
            self.len_spec() <= other.len_spec(),
            forall|j: int| 0 <= j < self.len_spec() ==> {
                &&& (#[trigger] other.node(j)).level == self.node(j).level
                &&& other.node(j).parent == self.node(j).parent
            },
        ensures
            other.chain(i) == self.chain(i),
        decreases self.level_of(i),
    {
        assert(self.node_wf(i));
        match self.node(i).parent {
            Option::None => {},
            Option::Some(p) => {
                self.lemma_chain_prefix(other, p as int);
            },
        }
    }

    /// An empty tree.
    pub fn new() -> (r: PidNsTree)
        ensures
            r.wf(),
            r.len_spec() == 0,
    {
        PidNsTree { nodes: Vec::new() }
    }

    /// Bootstrap a fresh root namespace (level 0, `pid_allocated == 1`)
    /// and return its index.
    pub fn add_root(&mut self) -> (r: usize)
        requires
            old(self).wf(),
            old(self).len_spec() < usize::MAX,
        ensures
            final(self).wf(),
            r == old(self).len_spec(),
            final(self).len_spec() == old(self).len_spec() + 1,
            forall|i: int| 0 <= i < old(self).len_spec()
                ==> final(self).node(i) == old(self).node(i),
            final(self).node(r as int).level == 0,
            final(self).node(r as int).parent is None,
            final(self).node(r as int).pid_allocated == 1,
            final(self).node(r as int).child_reaper.value == 1,
            forall|id: usize| !final(self).used(r as int, id),
    {
        let n: usize = self.nodes.len();
        self.nodes.push(PidNamespace::default());
        proof {
            let a = *old(self);
            let b = *self;
            assert forall|i: int| 0 <= i < b.len_spec() implies #[trigger] b.node_wf(i) by {
                if i < a.len_spec() {
                    assert(a.node_wf(i));
                } else {
                    assert(b.node(i).parent is None);
                }
            }
        }
        n
    }

    /// Number of namespaces in the tree.
    pub fn node_count(&self) -> (r: usize)
        ensures
            r == self.len_spec(),
    {
        self.nodes.len()
    }

    /// Depth of namespace `i`.
    pub fn level(&self, i: usize) -> (r: usize)
        requires
            (i as int) < self.len_spec(),
        ensures
            r == self.level_of(i as int),
    {
        self.nodes[i].level
    }

    /// Parent link of namespace `i`, or `None` at a root.
    pub fn parent_index(&self, i: usize) -> (r: Option<usize>)
        requires
            (i as int) < self.len_spec(),
        ensures
            r == self.node(i as int).parent,
    {
        self.nodes[i].parent
    }

    /// The `pid_allocated` word of namespace `i`.
    pub fn pid_allocated(&self, i: usize) -> (r: u32)
        requires
            (i as int) < self.len_spec(),
        ensures
            r == self.node(i as int).pid_allocated,
    {
        self.nodes[i].pid_allocated
    }

    /// The user namespace owning namespace `i`.
    pub fn user_ns(&self, i: usize) -> (r: usize)
        requires
            (i as int) < self.len_spec(),
        ensures
            r == self.node(i as int).user_ns,
    {
        self.nodes[i].user_ns
    }

    /// The orphan-reaper PID of namespace `i`.
    pub fn child_reaper(&self, i: usize) -> (r: Pid)
        requires
            (i as int) < self.len_spec(),
        ensures
            r == self.node(i as int).child_reaper,
    {
        self.nodes[i].child_reaper
    }

    /// The accounting key namespace `i` holds its reservation under.
    pub fn ucounts_key(&self, i: usize) -> (r: UcKey)
        requires
            (i as int) < self.len_spec(),
        ensures
            r == self.node(i as int).ucounts,
    {
        self.nodes[i].ucounts
    }

    /// Whether local number `id` is currently issued in namespace `i`.
    pub fn id_in_use(&self, i: usize, id: usize) -> (r: bool)
        requires
            (i as int) < self.len_spec(),
        ensures
            r == self.used(i as int, id),
    {
        self.nodes[i].id_allocator.in_use(id)
    }
}

impl PidStrcut {
    /// Home namespace of this PID: the one of its most-specific entry.
    pub fn ns_of_pid(&self) -> (r: usize)
        requires
            self.level < self.numbers@.len(),
        ensures
            r == self.numbers@[self.level as int].ns,
    {
        self.numbers[self.level].ns
    }

    /// Release the most-specific number of `pid` back to its home
    /// namespace's allocator, making it available for reuse there.
    /// Ancestor-level numbers stay issued; they are released independently
    /// by their own holders.
    pub fn put_pid(tree: &mut PidNsTree, pid: PidStrcut)
        requires
            old(tree).wf(),
            pid.level < pid.numbers@.len(),
            (pid.numbers@[pid.level as int].ns as int) < old(tree).len_spec(),
        ensures
            final(tree).wf(),
            final(tree).len_spec() == old(tree).len_spec(),
            !final(tree).used(
                pid.numbers@[pid.level as int].ns as int,
                pid.numbers@[pid.level as int].nr.value,
            ),
            forall|o: usize| o != pid.numbers@[pid.level as int].nr.value
                ==> final(tree).used(pid.numbers@[pid.level as int].ns as int, o)
                    == old(tree).used(pid.numbers@[pid.level as int].ns as int, o),
            ns_meta_eq(
                final(tree).node(pid.numbers@[pid.level as int].ns as int),
                old(tree).node(pid.numbers@[pid.level as int].ns as int),
            ),
            forall|m: int| 0 <= m < old(tree).len_spec()
                && m != pid.numbers@[pid.level as int].ns as int
                ==> #[trigger] final(tree).node(m) == old(tree).node(m),
    {
        let home: usize = pid.numbers[pid.level].ns;
        let id: usize = pid.numbers[pid.level].nr.data();
        proof {
            assert(old(tree).node_wf(home as int));
        }
        tree.nodes[home].id_allocator.free(id);
        proof {
            let a = *old(tree);
            let b = *tree;
            assert forall|i: int| 0 <= i < b.len_spec() implies #[trigger] b.node_wf(i) by {
                assert(a.node_wf(i));
                if i != home as int {
                    assert(b.node(i) == a.node(i));
                }
            }
        }
    }

    /// Build a PID identity in namespace `ns`: walk the ancestor chain from
    /// `ns` up to the root assigning one local number per level.  The
    /// numbers in `set_tid`, most specific last, are used verbatim for the
    /// deepest levels; every other level draws a fresh number from its own
    /// namespace's allocator.  A list longer than the chain, or a requested
    /// number outside `[1, INT16_MAX]`, is rejected before anything is
    /// allocated.
    pub fn alloc_pid(tree: &mut PidNsTree, ns: usize, set_tid: Vec<usize>) -> (r:
        Result<PidStrcut, SysError>)
        requires
            old(tree).wf(),
            (ns as int) < old(tree).len_spec(),
            alloc_feasible(*old(tree), ns, set_tid@),
        ensures
            final(tree).wf(),
            final(tree).len_spec() == old(tree).len_spec(),
            (r is Ok <==> valid_request(old(tree).level_of(ns as int), set_tid@)),
            (match r {
                Ok(p) => alloc_pid_ok(*old(tree), *final(tree), ns, set_tid@, p),
                Err(e) => e == SysError::Einval && *final(tree) == *old(tree),
            }),
    {
        proof {
            old(tree).lemma_chain(ns as int);
            assert(old(tree).node_wf(ns as int));
        }
        let level: usize = tree.nodes[ns].level;
        let k: usize = set_tid.len();
        if k > level + 1 {
            return Err(SysError::Einval);
        }
        let mut j: usize = 0;
        while j < k
            invariant
                *tree == *old(tree),
                old(tree).wf(),
                j <= k,
                k == set_tid@.len(),
                forall|jj: int| 0 <= jj < j ==> 1 <= #[trigger] set_tid@[jj] <= INT16_MAX,
            decreases k - j,
        {
            let t: usize = set_tid[j];
            if t < 1 || t > INT16_MAX {
                return Err(SysError::Einval);
            }
            j += 1;
        }
        let auto: usize = level + 1 - k;

        // materialize the ancestor chain, deepest entry first
        let mut chain_rev: Vec<usize> = Vec::new();
        let mut cur: usize = ns;
        let mut steps: usize = 0;
        while steps < level
            invariant
                *tree == *old(tree),
                tree.wf(),
                (ns as int) < tree.len_spec(),
                level == tree.level_of(ns as int),
                steps <= level,
                chain_rev@.len() == steps,
                (cur as int) == tree.chain(ns as int)[level - steps],
                (cur as int) < tree.len_spec(),
                forall|q: int| 0 <= q < steps
                    ==> #[trigger] chain_rev@[q] == tree.chain(ns as int)[level - q],
            decreases level - steps,
        {
            proof {
                tree.lemma_chain(ns as int);
                assert(tree.chain(ns as int)[level - steps] == cur as int);
                assert(tree.level_of(cur as int) == level - steps);
                assert(tree.node_wf(cur as int));
                assert(0 <= tree.chain(ns as int)[level - steps - 1] < tree.len_spec());
                assert(tree.nodes.len() <= usize::MAX);
                assert(tree.len_spec() <= usize::MAX as int);
                assert(tree.node(cur as int).parent
                    == Option::Some(tree.chain(ns as int)[level - steps - 1] as usize));
            }
            chain_rev.push(cur);
            let p_opt: Option<usize> = tree.nodes[cur].parent;
            proof {
                assert(p_opt is Some);
            }
            cur = p_opt.unwrap();
            steps += 1;
        }
        proof {
            tree.lemma_chain(ns as int);
        }
        chain_rev.push(cur);

        // assign one number per level, root level first
        let mut numbers: Vec<UPid> = Vec::new();
        let mut i: usize = 0;
        while i <= level
            invariant
                old(tree).wf(),
                (ns as int) < old(tree).len_spec(),
                level == old(tree).level_of(ns as int),
                k == set_tid@.len(),
                k <= level + 1,
                auto == level + 1 - k,
                forall|jj: int| 0 <= jj < k ==> 1 <= #[trigger] set_tid@[jj] <= INT16_MAX,
                alloc_feasible(*old(tree), ns, set_tid@),
                chain_rev@.len() == level + 1,
                forall|q: int| 0 <= q <= level
                    ==> #[trigger] chain_rev@[q] == old(tree).chain(ns as int)[level - q],
                i <= level + 1,
                numbers@.len() == i,
                tree.len_spec() == old(tree).len_spec(),
                tree.wf(),
                forall|m: int| 0 <= m < old(tree).len_spec() ==> {
                    &&& (#[trigger] tree.node(m)).level == old(tree).node(m).level
                    &&& tree.node(m).parent == old(tree).node(m).parent
                },
                forall|q: int| 0 <= q < i
                    ==> (#[trigger] numbers@[q]).ns == old(tree).chain(ns as int)[q],
                forall|q: int| auto <= q < i
                    ==> (#[trigger] numbers@[q]).nr.value == set_tid@[q - auto],
                forall|q: int| 0 <= q < i && q < auto
                    ==> fresh_issue(*old(tree), *tree, old(tree).chain(ns as int)[q],
                        (#[trigger] numbers@[q]).nr.value),
                forall|m: int|
                    0 <= m < old(tree).len_spec()
                        && !(exists|q: int| 0 <= q < i && q < auto
                            && #[trigger] old(tree).chain(ns as int)[q] == m)
                        ==> #[trigger] tree.node(m) == old(tree).node(m),
            decreases level + 1 - i,
        {
            proof {
                old(tree).lemma_chain(ns as int);
                assert(old(tree).node_wf(ns as int));
            }
            let ci: usize = chain_rev[level - i];
            proof {
                assert(ci as int == old(tree).chain(ns as int)[i as int]);
                assert((ci as int) < old(tree).len_spec());
                assert(old(tree).level_of(ci as int) == i as int);
            }
            let nr: usize;
            if i < auto {
                proof {
                    // the chain is injective by level, so this node's
                    // allocator has not been touched yet
                    assert forall|q: int| 0 <= q < i && q < auto implies
                        old(tree).chain(ns as int)[q] != ci as int by {
                        assert(old(tree).level_of(old(tree).chain(ns as int)[q]) == q);
                    }
                    assert(tree.node(ci as int) == old(tree).node(ci as int));
                    assert(!old(tree).node(old(tree).chain(ns as int)[i as int])
                        .id_allocator.full());
                    assert(tree.node_wf(ci as int));
                }
                let ghost tprev = *tree;
                let got: Option<usize> = tree.nodes[ci].id_allocator.alloc_id();
                proof {
                    assert(got is Some);
                }
                nr = got.unwrap();
                proof {
                    let b = *tree;
                    assert forall|m: int| 0 <= m < b.len_spec() && m != ci as int implies
                        #[trigger] b.node(m) == tprev.node(m) by {}
                    assert forall|m: int| 0 <= m < b.len_spec() implies
                        #[trigger] b.node_wf(m) by {
                        assert(tprev.node_wf(m));
                        if m != ci as int {
                            assert(b.node(m) == tprev.node(m));
                        }
                    }
                    assert(fresh_issue(*old(tree), b, ci as int, nr));
                    assert forall|q: int| 0 <= q < i && q < auto implies
                        fresh_issue(*old(tree), b, old(tree).chain(ns as int)[q],
                            numbers@[q].nr.value) by {
                        let m = old(tree).chain(ns as int)[q];
                        assert(old(tree).level_of(m) == q);
                        assert(m != ci as int);
                        assert(b.node(m) == tprev.node(m));
                    }
                }
            } else {
                nr = set_tid[i - auto];
            }
            numbers.push(UPid { nr: Pid { value: nr }, ns: ci });
            i += 1;
        }
        proof {
            old(tree).lemma_chain(ns as int);
        }
        Ok(PidStrcut { level, numbers, stashed: InodeRef {} })
    }
}

impl PidNamespace {
    /// Reserve one pid-namespaces unit against `(user_ns, uid)`.  `uid` is
    /// the caller's effective uid, resolved by the credential query outside
    /// this subsystem.  `Ok(None)` signals a refused reservation.
    pub fn inc_pid_namespaces(reg: &mut UCountRegistry, user_ns: usize, uid: usize) -> (r:
        Result<Option<UcKey>, SysError>)
        requires
            old(reg).wf(),
            old(reg).refs_of(user_ns, uid) < usize::MAX,
        ensures
            final(reg).wf(),
            r is Ok,
            (match r {
                Ok(o) => {
                    &&& (o is Some <==> old(reg).count_of(user_ns, uid, pidns_kind())
                        < old(reg).limit(pidns_kind()))
                    &&& (match o {
                        Some(key) => key == (UcKey { user_ns, uid })
                            && pidns_reserved(*old(reg), *final(reg), user_ns, uid),
                        None => registry_unchanged(*old(reg), *final(reg)),
                    })
                },
                Err(_) => false,
            }),
    {
        Ok(reg.inc_ucounts(user_ns, uid, Ucount::PidNamespaces))
    }

    /// Release the pid-namespaces unit held under `uc`; the record itself
    /// goes away once its last holder is gone.
    pub fn dec_pid_namespaces(reg: &mut UCountRegistry, uc: UcKey)
        requires
            old(reg).wf(),
            old(reg).has_entry(uc.user_ns, uc.uid),
            old(reg).count_of(uc.user_ns, uc.uid, pidns_kind()) >= 1,
            old(reg).refs_of(uc.user_ns, uc.uid) >= 1,
        ensures
            final(reg).wf(),
            forall|k: int| 0 <= k < UCOUNT_COUNTS
                ==> final(reg).limit(k) == old(reg).limit(k),
            forall|u2: usize, d2: usize| !(u2 == uc.user_ns && d2 == uc.uid)
                ==> key_unchanged(*old(reg), *final(reg), u2, d2),
            old(reg).refs_of(uc.user_ns, uc.uid) == 1
                ==> !final(reg).has_entry(uc.user_ns, uc.uid),
            old(reg).refs_of(uc.user_ns, uc.uid) > 1 ==> {
                &&& final(reg).has_entry(uc.user_ns, uc.uid)
                &&& final(reg).refs_of(uc.user_ns, uc.uid)
                    == old(reg).refs_of(uc.user_ns, uc.uid) - 1
                &&& final(reg).count_of(uc.user_ns, uc.uid, pidns_kind())
                    == old(reg).count_of(uc.user_ns, uc.uid, pidns_kind()) - 1
            },
    {
        reg.dec_ucount(uc, Ucount::PidNamespaces)
    }

    /// Create a child namespace of `parent`, owned by `user_ns`, reserving
    /// one pid-namespaces unit against `(user_ns, uid)` first.  Fails with
    /// resource exhaustion when nesting would pass `MAX_PID_NS_LEVEL` or the
    /// reservation is refused; on success the child starts one level deeper,
    /// with an empty allocator, its parent's reaper, and the in-progress
    /// sentinel in `pid_allocated`.
    pub fn create_pid_namespace(
        tree: &mut PidNsTree,
        reg: &mut UCountRegistry,
        parent: usize,
        user_ns: usize,
        uid: usize,
    ) -> (r: Result<usize, SysError>)
        requires
            old(tree).wf(),
            (parent as int) < old(tree).len_spec(),
            old(tree).len_spec() < usize::MAX,
            old(reg).wf(),
            old(reg).refs_of(user_ns, uid) < usize::MAX,
        ensures
            final(tree).wf(),
            final(reg).wf(),
            (r is Ok <==> old(tree).level_of(parent as int) + 1 <= MAX_PID_NS_LEVEL
                && old(reg).count_of(user_ns, uid, pidns_kind())
                    < old(reg).limit(pidns_kind())),
            (match r {
                Ok(c) => {
                    &&& c == old(tree).len_spec()
                    &&& final(tree).len_spec() == old(tree).len_spec() + 1
                    &&& forall|i: int| 0 <= i < old(tree).len_spec()
                        ==> final(tree).node(i) == old(tree).node(i)
                    &&& final(tree).node(c as int).level
                        == old(tree).level_of(parent as int) + 1
                    &&& final(tree).node(c as int).parent == Option::Some(parent)
                    &&& final(tree).node(c as int).user_ns == user_ns
                    &&& final(tree).node(c as int).ucounts == (UcKey { user_ns, uid })
                    &&& final(tree).node(c as int).pid_allocated == PIDNS_ADDING
                    &&& final(tree).node(c as int).child_reaper
                        == old(tree).node(parent as int).child_reaper
                    &&& forall|id: usize| !final(tree).used(c as int, id)
                    &&& pidns_reserved(*old(reg), *final(reg), user_ns, uid)
                },
                Err(e) => {
                    &&& e == SysError::Enospc
                    &&& *final(tree) == *old(tree)
                    &&& registry_unchanged(*old(reg), *final(reg))
                },
            }),
    {
        proof {
            assert(old(tree).node_wf(parent as int));
        }
        let level_parent: usize = tree.nodes[parent].level;
        let level: usize = level_parent + 1;
        if level > MAX_PID_NS_LEVEL {
            proof {
                assert forall|u2: usize, d2: usize|
                    key_unchanged(*old(reg), *final(reg), u2, d2) by {}
            }
            return Err(SysError::Enospc);
        }
        let reserved: Option<UcKey> = match PidNamespace::inc_pid_namespaces(reg, user_ns, uid) {
            Ok(o) => o,
            Err(_) => {
                proof {
                    assert(false);
                }
                None
            },
        };
        let uc: UcKey = match reserved {
            Some(uc) => uc,
            None => {
                return Err(SysError::Enospc);
            },
        };
        let child_reaper: Pid = tree.nodes[parent].child_reaper;
        let id_allocator: IdAllocator = IdAllocator::new(1, PID_MAX).unwrap();
        let c: usize = tree.nodes.len();
        tree.nodes.push(PidNamespace {
            id_allocator,
            pid_allocated: PIDNS_ADDING,
            level,
            parent: Some(parent),
            ucounts: uc,
            user_ns,
            child_reaper,
        });
        proof {
            let a = *old(tree);
            let b = *tree;
            assert forall|i: int| 0 <= i < b.len_spec() implies #[trigger] b.node_wf(i) by {
                if i < a.len_spec() {
                    assert(a.node_wf(i));
                } else {
                    assert(b.node(parent as int) == a.node(parent as int));
                }
            }
        }
        Ok(c)
    }

    /// Stable kind identifier of PID namespaces.
    pub fn name(&self) -> (r: String)
        ensures
            r@ == "pid"@,
    {
        "pid".to_string()
    }

    /// Explicit release hook.  Teardown is implicit: dropping the last
    /// reference releases a chain one level at a time, child before parent,
    /// so there is nothing to do here.
    pub fn put(&self) {
    }

    /// The user namespace that owns this PID namespace.
    pub fn owner(&self) -> (r: usize)
        ensures
            r == self.user_ns,
    {
        self.user_ns
    }

    /// The creation-flag bit identifying the PID namespace kind.
    pub fn clone_flags(&self) -> (r: CloneFlags)
        ensures
            r.bits == CLONE_NEWPID,
    {
        CloneFlags { bits: CLONE_NEWPID }
    }

    /// Nearest ancestor of `self_id` lying on the caller's active chain:
    /// the walk succeeds exactly when the active namespace `active` is a
    /// strict ancestor of `self_id`, and then returns it; otherwise the
    /// caller may not see `self_id` at all and permission is denied.
    pub fn get_parent(tree: &PidNsTree, self_id: usize, active: usize) -> (r:
        Result<usize, SysError>)
        requires
            tree.wf(),
            (self_id as int) < tree.len_spec(),
            (active as int) < tree.len_spec(),
        ensures
            (r is Ok <==> tree.is_proper_ancestor(active as int, self_id as int)),
            (match r {
                Ok(a) => a == active,
                Err(e) => e == SysError::Eperm,
            }),
    {
        let lvl_self: usize = tree.nodes[self_id].level;
        proof {
            tree.lemma_chain(self_id as int);
            assert(tree.node_wf(self_id as int));
            if lvl_self > 0 {
                assert(tree.chain(self_id as int)[lvl_self as int] == self_id as int);
                assert(0 <= tree.chain(self_id as int)[lvl_self - 1] < tree.len_spec());
                assert(tree.nodes.len() <= usize::MAX);
                assert(tree.node(self_id as int).parent
                    == Option::Some(tree.chain(self_id as int)[lvl_self - 1] as usize));
            }
        }
        let mut cur_opt: Option<usize> = tree.nodes[self_id].parent;
        let ghost mut j: int = lvl_self - 1;
        while cur_opt.is_some()
            invariant
                tree.wf(),
                (self_id as int) < tree.len_spec(),
                (active as int) < tree.len_spec(),
                lvl_self == tree.level_of(self_id as int),
                -1 <= j < lvl_self,
                (match cur_opt {
                    Some(c) => {
                        &&& 0 <= j
                        &&& (c as int) == tree.chain(self_id as int)[j]
                        &&& (c as int) < tree.len_spec()
                        &&& tree.level_of(c as int) == j
                    },
                    None => j == -1,
                }),
                forall|m: int| j < m < lvl_self
                    ==> #[trigger] tree.chain(self_id as int)[m] != active as int,
            decreases j + 1,
        {
            let c: usize = cur_opt.unwrap();
            if c == active {
                proof {
                    assert(tree.is_proper_ancestor(active as int, self_id as int));
                }
                return Ok(c);
            }
            proof {
                tree.lemma_chain(self_id as int);
                assert(tree.node_wf(c as int));
                if j >= 1 {
                    assert(0 <= tree.chain(self_id as int)[j - 1] < tree.len_spec());
                    assert(tree.nodes.len() <= usize::MAX);
                    assert(tree.node(c as int).parent
                        == Option::Some(tree.chain(self_id as int)[j - 1] as usize));
                } else {
                    assert(tree.node(c as int).parent is None);
                }
            }
            cur_opt = tree.nodes[c].parent;
            proof {
                j = j - 1;
            }
        }
        proof {
            if tree.is_proper_ancestor(active as int, self_id as int) {
                let m = tree.level_of(active as int);
                assert(tree.chain(self_id as int)[m] != active as int);
            }
        }
        Err(SysError::Eperm)
    }

    /// Change the PID namespace the process in `nsset` would adopt: walk up
    /// from `self_id` to the ancestor at the caller's active level and
    /// install it.  A target shallower than the active namespace, and a
    /// walk that resolves to the active namespace itself, are rejected as
    /// invalid and leave `nsset` untouched.
    pub fn install(tree: &PidNsTree, self_id: usize, active: usize, nsset: &mut NsSet) -> (r:
        Result<(), SysError>)
        requires
            tree.wf(),
            (self_id as int) < tree.len_spec(),
            (active as int) < tree.len_spec(),
        ensures
            (r is Ok <==> tree.level_of(self_id as int) >= tree.level_of(active as int)
                && tree.chain(self_id as int)[tree.level_of(active as int)]
                    != active as int),
            (match r {
                Ok(u) => (final(nsset).nsproxy.pid_namespace as int)
                    == tree.chain(self_id as int)[tree.level_of(active as int)],
                Err(e) => e == SysError::Einval && *final(nsset) == *old(nsset),
            }),
    {
        let lvl_active: usize = tree.nodes[active].level;
        let lvl_self: usize = tree.nodes[self_id].level;
        if lvl_self < lvl_active {
            return Err(SysError::Einval);
        }
        proof {
            tree.lemma_chain(self_id as int);
        }
        let mut cur: usize = self_id;
        let mut lvl_cur: usize = lvl_self;
        while lvl_cur > lvl_active
            invariant
                tree.wf(),
                (self_id as int) < tree.len_spec(),
                (active as int) < tree.len_spec(),
                (cur as int) < tree.len_spec(),
                lvl_active == tree.level_of(active as int),
                lvl_self == tree.level_of(self_id as int),
                lvl_active <= lvl_cur <= lvl_self,
                lvl_cur == tree.level_of(cur as int),
                (cur as int) == tree.chain(self_id as int)[lvl_cur as int],
                *nsset == *old(nsset),
            decreases lvl_cur,
        {
            proof {
                tree.lemma_chain(self_id as int);
                assert(tree.node_wf(cur as int));
                assert(0 <= tree.chain(self_id as int)[lvl_cur - 1] < tree.len_spec());
                assert(tree.nodes.len() <= usize::MAX);
                assert(tree.node(cur as int).parent
                    == Option::Some(tree.chain(self_id as int)[lvl_cur - 1] as usize));
            }
            let p_opt: Option<usize> = tree.nodes[cur].parent;
            cur = p_opt.unwrap();
            lvl_cur = tree.nodes[cur].level;
        }
        if cur == active {
            return Err(SysError::Einval);
        }
        nsset.nsproxy.pid_namespace = cur;
        Ok(())
    }
}

/// Within one PID identity, entries sit in pairwise distinct namespaces:
/// the chain is injective, one namespace per level.
pub proof fn lemma_alloc_pid_entries_distinct(
    pre: PidNsTree,
    post: PidNsTree,
    ns: usize,
    tids: Seq<usize>,
    p: PidStrcut,
    i: int,
    j: int,
)
    requires
        pre.wf(),
        (ns as int) < pre.len_spec(),
        alloc_pid_ok(pre, post, ns, tids, p),
        0 <= i < j <= pre.level_of(ns as int),
    ensures
        p.numbers@[i].ns != p.numbers@[j].ns,
{
    assert(pre.level_of(p.numbers@[i].ns as int) == i);
    assert(pre.level_of(p.numbers@[j].ns as int) == j);
}

/// Freshly issued numbers are distinct from every number still live at the
/// same level of the same target: the first allocation leaves its numbers
/// in the live sets, and the second draws only numbers outside them.
pub proof fn lemma_live_numbers_distinct(
    t0: PidNsTree,
    t1: PidNsTree,
    t2: PidNsTree,
    ns: usize,
    tids1: Seq<usize>,
    tids2: Seq<usize>,
    p1: PidStrcut,
    p2: PidStrcut,
    i: int,
)
    requires
        t0.wf(),
        (ns as int) < t0.len_spec(),
        alloc_pid_ok(t0, t1, ns, tids1, p1),
        alloc_pid_ok(t1, t2, ns, tids2, p2),
        0 <= i < t0.level_of(ns as int) + 1 - tids1.len(),
        i < t1.level_of(ns as int) + 1 - tids2.len(),
    ensures
        p1.numbers@[i].nr.value != p2.numbers@[i].nr.value,
{
    t0.lemma_chain(ns as int);
    // levels and parent links survive an allocation, so the chain does too
    assert forall|j: int| 0 <= j < t0.len_spec() implies
        (#[trigger] t1.node(j)).level == t0.node(j).level
            && t1.node(j).parent == t0.node(j).parent by {
        if exists|q: int| 0 <= q < t0.level_of(ns as int) + 1 - tids1.len()
            && #[trigger] t0.chain(ns as int)[q] == j {
            let q = choose|q: int| 0 <= q < t0.level_of(ns as int) + 1 - tids1.len()
                && #[trigger] t0.chain(ns as int)[q] == j;
            assert(fresh_issue(t0, t1, j, p1.numbers@[q].nr.value));
        } else {
            assert(t1.node(j) == t0.node(j));
        }
    }
    t0.lemma_chain_prefix(t1, ns as int);
    let m = t0.chain(ns as int)[i];
    assert(fresh_issue(t0, t1, m, p1.numbers@[i].nr.value));
    assert(t1.used(m, p1.numbers@[i].nr.value));
    assert(t1.level_of(ns as int) == t0.level_of(ns as int));
    assert(fresh_issue(t1, t2, t1.chain(ns as int)[i], p2.numbers@[i].nr.value));
    assert(!t1.used(m, p2.numbers@[i].nr.value));
}

/// After a PID's most-specific number is released, it is issuable again in
/// its home namespace — exactly the freshness condition under which a
/// later allocation there may hand the same number out.
pub proof fn lemma_put_pid_enables_reuse(post: PidNsTree, p: PidStrcut)
    requires
        p.level < p.numbers@.len(),
        1 <= p.numbers@[p.level as int].nr.value <= PID_MAX,
        !post.used(p.numbers@[p.level as int].ns as int, p.numbers@[p.level as int].nr.value),
    ensures
        post.issuable(p.numbers@[p.level as int].ns as int, p.numbers@[p.level as int].nr.value),
{
}

} // verus!

use pid_ns::error::SysError;
use pid_ns::pid_namespace::{
    NsProxy, NsSet, Pid, PidNamespace, PidNsOperations, PidNsTree, PidStrcut, CLONE_NEWPID,
    MAX_PID_NS_LEVEL, PIDNS_ADDING,
};
use pid_ns::ucount::{UCountRegistry, Ucount};

fn fresh_world() -> (PidNsTree, UCountRegistry, usize) {
    let mut tree = PidNsTree::new();
    let root = tree.add_root();
    let reg = UCountRegistry::new();
    (tree, reg, root)
}

#[test]
fn root_bootstraps_with_pid_allocated_one() {
    let (tree, _reg, root) = fresh_world();
    assert_eq!(tree.node_count(), 1);
    assert_eq!(tree.level(root), 0);
    assert_eq!(tree.parent_index(root), None);
    assert_eq!(tree.pid_allocated(root), 1);
    assert_eq!(tree.child_reaper(root).data(), 1);
}

#[test]
fn create_child_is_one_level_deeper() {
    let (mut tree, mut reg, root) = fresh_world();
    let child = PidNamespace::create_pid_namespace(&mut tree, &mut reg, root, 5, 100).unwrap();
    assert_eq!(tree.level(child), 1);
    assert_eq!(tree.parent_index(child), Some(root));
    assert_eq!(tree.user_ns(child), 5);
    assert_eq!(tree.pid_allocated(child), PIDNS_ADDING);
    assert_eq!(tree.child_reaper(child).data(), tree.child_reaper(root).data());
    let key = tree.ucounts_key(child);
    assert_eq!(key.user_ns, 5);
    assert_eq!(key.uid, 100);
    assert_eq!(reg.get_count(5, 100, Ucount::PidNamespaces), 1);
}

#[test]
fn alloc_pid_in_child_yields_two_upids() {
    let (mut tree, mut reg, root) = fresh_world();
    let child = PidNamespace::create_pid_namespace(&mut tree, &mut reg, root, 0, 0).unwrap();
    let p = PidStrcut::alloc_pid(&mut tree, child, Vec::new()).unwrap();
    assert_eq!(p.level, 1);
    assert_eq!(p.numbers.len(), 2);
    assert_eq!(p.numbers[0].ns, root);
    assert_eq!(p.numbers[1].ns, child);
    assert!(tree.id_in_use(root, p.numbers[0].nr.data()));
    assert!(tree.id_in_use(child, p.numbers[1].nr.data()));
    assert_eq!(p.ns_of_pid(), child);
}

#[test]
fn alloc_pid_numbers_match_levels_and_stay_distinct() {
    let (mut tree, mut reg, root) = fresh_world();
    let a = PidNamespace::create_pid_namespace(&mut tree, &mut reg, root, 0, 0).unwrap();
    let b = PidNamespace::create_pid_namespace(&mut tree, &mut reg, a, 0, 0).unwrap();
    let p1 = PidStrcut::alloc_pid(&mut tree, b, Vec::new()).unwrap();
    let p2 = PidStrcut::alloc_pid(&mut tree, b, Vec::new()).unwrap();
    for i in 0..3 {
        assert_eq!(tree.level(p1.numbers[i].ns), i);
        // numbers issued to the two identities never collide per level
        assert_ne!(p1.numbers[i].nr.data(), p2.numbers[i].nr.data());
    }
}

#[test]
fn alloc_pid_rejects_overlong_request_without_allocating() {
    let (mut tree, _reg, root) = fresh_world();
    let r = PidStrcut::alloc_pid(&mut tree, root, vec![3, 4]);
    assert!(matches!(r, Err(SysError::Einval)));
    // nothing was drawn: the next allocation still gets the first number
    let p = PidStrcut::alloc_pid(&mut tree, root, Vec::new()).unwrap();
    assert_eq!(p.numbers[0].nr.data(), 1);
}

#[test]
fn alloc_pid_rejects_out_of_range_requests() {
    let (mut tree, _reg, root) = fresh_world();
    assert!(matches!(
        PidStrcut::alloc_pid(&mut tree, root, vec![0]),
        Err(SysError::Einval)
    ));
    assert!(matches!(
        PidStrcut::alloc_pid(&mut tree, root, vec![32768]),
        Err(SysError::Einval)
    ));
    assert!(PidStrcut::alloc_pid(&mut tree, root, vec![32767]).is_ok());
}

#[test]
fn alloc_pid_uses_requested_number_for_most_specific_level() {
    let (mut tree, mut reg, root) = fresh_world();
    let a = PidNamespace::create_pid_namespace(&mut tree, &mut reg, root, 0, 0).unwrap();
    let b = PidNamespace::create_pid_namespace(&mut tree, &mut reg, a, 0, 0).unwrap();
    let p = PidStrcut::alloc_pid(&mut tree, b, vec![7]).unwrap();
    assert_eq!(p.level, 2);
    assert_eq!(p.numbers.len(), 3);
    // root first, allocator-issued numbers for the ancestors
    assert_eq!(p.numbers[0].ns, root);
    assert_eq!(p.numbers[0].nr.data(), 1);
    assert_eq!(p.numbers[1].ns, a);
    assert_eq!(p.numbers[1].nr.data(), 1);
    // the requested number fills the most specific level verbatim
    assert_eq!(p.numbers[2].ns, b);
    assert_eq!(p.numbers[2].nr.data(), 7);
    // requested numbers bypass the allocator entirely
    assert!(!tree.id_in_use(b, 7));
}

#[test]
fn put_pid_releases_only_most_specific_number() {
    let (mut tree, mut reg, root) = fresh_world();
    let child = PidNamespace::create_pid_namespace(&mut tree, &mut reg, root, 0, 0).unwrap();
    let p = PidStrcut::alloc_pid(&mut tree, child, Vec::new()).unwrap();
    let root_nr = p.numbers[0].nr.data();
    let child_nr = p.numbers[1].nr.data();
    PidStrcut::put_pid(&mut tree, p);
    assert!(!tree.id_in_use(child, child_nr));
    // the ancestor-level number stays issued
    assert!(tree.id_in_use(root, root_nr));
    // the released number is available again for a later allocation
    let q = PidStrcut::alloc_pid(&mut tree, child, Vec::new()).unwrap();
    assert_eq!(q.numbers[1].nr.data(), child_nr);
}

#[test]
fn nesting_fails_at_the_thirty_third_creation() {
    let (mut tree, mut reg, root) = fresh_world();
    let mut cur = root;
    for depth in 1..=MAX_PID_NS_LEVEL {
        cur = PidNamespace::create_pid_namespace(&mut tree, &mut reg, cur, 0, 0).unwrap();
        assert_eq!(tree.level(cur), depth);
    }
    let r = PidNamespace::create_pid_namespace(&mut tree, &mut reg, cur, 0, 0);
    assert!(matches!(r, Err(SysError::Enospc)));
}

#[test]
fn ucount_limit_is_enforced_exactly() {
    let mut reg = UCountRegistry::new();
    reg.set_max(Ucount::PidNamespaces, 3);
    for _ in 0..3 {
        assert!(reg.inc_ucounts(9, 42, Ucount::PidNamespaces).is_some());
    }
    // the limit-plus-first call is refused and the counter stays put
    assert!(reg.inc_ucounts(9, 42, Ucount::PidNamespaces).is_none());
    assert_eq!(reg.get_count(9, 42, Ucount::PidNamespaces), 3);
}

#[test]
fn creation_fails_with_enospc_when_reservation_refused() {
    let (mut tree, mut reg, root) = fresh_world();
    reg.set_max(Ucount::PidNamespaces, 0);
    let r = PidNamespace::create_pid_namespace(&mut tree, &mut reg, root, 0, 0);
    assert!(matches!(r, Err(SysError::Enospc)));
    assert_eq!(tree.node_count(), 1);
    assert_eq!(reg.get_count(0, 0, Ucount::PidNamespaces), 0);
}

#[test]
fn ucount_record_expires_with_its_last_holder() {
    let mut reg = UCountRegistry::new();
    let k1 = reg.inc_ucounts(7, 7, Ucount::PidNamespaces).unwrap();
    let k2 = reg.inc_ucounts(7, 7, Ucount::PidNamespaces).unwrap();
    assert_eq!(reg.get_refs(7, 7), 2);
    PidNamespace::dec_pid_namespaces(&mut reg, k1);
    assert_eq!(reg.get_refs(7, 7), 1);
    assert_eq!(reg.get_count(7, 7, Ucount::PidNamespaces), 1);
    PidNamespace::dec_pid_namespaces(&mut reg, k2);
    // the record is gone: counters and holder count read back as zero
    assert_eq!(reg.get_refs(7, 7), 0);
    assert_eq!(reg.get_count(7, 7, Ucount::PidNamespaces), 0);
}

#[test]
fn install_rejects_shallower_target_and_noop() {
    let (mut tree, mut reg, root) = fresh_world();
    let a = PidNamespace::create_pid_namespace(&mut tree, &mut reg, root, 0, 0).unwrap();
    let b = PidNamespace::create_pid_namespace(&mut tree, &mut reg, a, 0, 0).unwrap();
    let mut nsset = NsSet { nsproxy: NsProxy { pid_namespace: root } };
    // target strictly shallower than the active namespace
    let r = PidNamespace::install(&tree, a, b, &mut nsset);
    assert!(matches!(r, Err(SysError::Einval)));
    // target resolving to the active namespace itself
    let r = PidNamespace::install(&tree, b, a, &mut nsset);
    assert!(matches!(r, Err(SysError::Einval)));
    assert_eq!(nsset.nsproxy.pid_namespace, root);
}

#[test]
fn install_selects_ancestor_at_active_level() {
    let (mut tree, mut reg, root) = fresh_world();
    let a = PidNamespace::create_pid_namespace(&mut tree, &mut reg, root, 0, 0).unwrap();
    let b = PidNamespace::create_pid_namespace(&mut tree, &mut reg, a, 0, 0).unwrap();
    let c = PidNamespace::create_pid_namespace(&mut tree, &mut reg, root, 0, 0).unwrap();
    // active namespace c is not on b's chain, so the walk lands on a
    let mut nsset = NsSet { nsproxy: NsProxy { pid_namespace: c } };
    let r = PidNamespace::install(&tree, b, c, &mut nsset);
    assert!(r.is_ok());
    assert_eq!(nsset.nsproxy.pid_namespace, a);
}

#[test]
fn get_parent_finds_only_active_ancestors() {
    let (mut tree, mut reg, root) = fresh_world();
    let a = PidNamespace::create_pid_namespace(&mut tree, &mut reg, root, 0, 0).unwrap();
    let b = PidNamespace::create_pid_namespace(&mut tree, &mut reg, a, 0, 0).unwrap();
    let c = PidNamespace::create_pid_namespace(&mut tree, &mut reg, root, 0, 0).unwrap();
    assert_eq!(PidNamespace::get_parent(&tree, b, a), Ok(a));
    assert_eq!(PidNamespace::get_parent(&tree, b, root), Ok(root));
    assert_eq!(PidNamespace::get_parent(&tree, b, c), Err(SysError::Eperm));
    assert_eq!(PidNamespace::get_parent(&tree, root, a), Err(SysError::Eperm));
    assert_eq!(PidNamespace::get_parent(&tree, b, b), Err(SysError::Eperm));
}

#[test]
fn capability_surface_reports_pid_kind() {
    let ns = PidNamespace::default();
    assert_eq!(ns.name(), "pid");
    assert_eq!(ns.owner(), 0);
    assert_eq!(ns.clone_flags().bits, CLONE_NEWPID);
    ns.put();
    let ops = PidNsOperations::new(String::from("pid"));
    assert_eq!(ops.name, "pid");
    assert_eq!(ops.clone_flags.bits, CLONE_NEWPID);
}

#[test]
fn default_pid_struct_is_bootstrap_identity() {
    let p = PidStrcut::default();
    assert_eq!(p.level, 0);
    assert_eq!(p.numbers.len(), 1);
    assert_eq!(p.numbers[0].nr.data(), 0);
    assert_eq!(p.numbers[0].ns, 0);
    assert_eq!(p.ns_of_pid(), 0);
    let pid = Pid::new(17);
    assert_eq!(pid.data(), 17);
}

#[test]
fn error_names_are_errno_style() {
    assert_eq!(SysError::Einval.name(), "EINVAL");
    assert_eq!(SysError::Enospc.name(), "ENOSPC");
    assert_eq!(SysError::Eperm.name(), "EPERM");
}

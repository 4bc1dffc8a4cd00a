use pid_ns::id_alloc::IdAllocator;
use pid_ns::pid_namespace::NsType;

#[test]
fn allocator_issues_each_id_once_then_exhausts() {
    let mut a = IdAllocator::new(1, 3).unwrap();
    let mut seen = vec![false; 4];
    for _ in 0..3 {
        let id = a.alloc_id().unwrap();
        assert!((1..=3).contains(&id));
        assert!(!seen[id]);
        seen[id] = true;
        assert!(a.in_use(id));
    }
    assert_eq!(a.alloc_id(), None);
}

#[test]
fn freeing_makes_an_id_available_again() {
    let mut a = IdAllocator::new(1, 4096).unwrap();
    let first = a.alloc_id().unwrap();
    let second = a.alloc_id().unwrap();
    assert_ne!(first, second);
    a.free(first);
    assert!(!a.in_use(first));
    assert!(a.in_use(second));
    let third = a.alloc_id().unwrap();
    assert_eq!(third, first);
}

#[test]
fn empty_range_is_refused_and_stray_frees_are_ignored() {
    assert!(IdAllocator::new(5, 4).is_none());
    let mut a = IdAllocator::new(1, 2).unwrap();
    a.free(9);
    let x = a.alloc_id().unwrap();
    let y = a.alloc_id().unwrap();
    assert_ne!(x, y);
    assert_eq!(a.alloc_id(), None);
}

#[test]
fn namespace_kinds_have_distinct_clone_flags() {
    let kinds = [
        NsType::Pid,
        NsType::User,
        NsType::Uts,
        NsType::Ipc,
        NsType::Net,
        NsType::Mnt,
        NsType::Cgroup,
        NsType::Time,
    ];
    for (i, a) in kinds.iter().enumerate() {
        assert_ne!(a.clone_flag().bits, 0);
        for b in kinds.iter().skip(i + 1) {
            assert_ne!(a.clone_flag().bits, b.clone_flag().bits);
        }
    }
}

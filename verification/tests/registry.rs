use iris::pid::SlabAllocator;
use iris::registry::NameRegistry;
use iris::supervisor::{PidFactory, Supervisor};

struct Respawn(u64);

impl PidFactory for Respawn {
    fn returning(pid: u64) -> Self {
        Respawn(pid)
    }
}

#[test]
fn path_registration_and_listing() {
    let mut slab = SlabAllocator::new();
    let mut reg = NameRegistry::new();
    let mut sup: Supervisor<Respawn> = Supervisor::new();

    // Two actors registered under hierarchical paths
    let a = slab.allocate();
    let b = slab.allocate();

    reg.register("/system/service/one".to_string(), a);
    reg.register("/system/service/two".to_string(), b);

    // Exact lookup
    let pa = reg.resolve("/system/service/one");
    assert_eq!(pa, Some(a));

    // List all descendants under prefix
    let children = reg.list_children("/system/service");
    assert!(children.iter().any(|(p, pid)| p == "/system/service/one" && *pid == a));
    assert!(children.iter().any(|(p, pid)| p == "/system/service/two" && *pid == b));

    // Direct children (one level) should return the same here
    let direct = reg.list_direct_children("/system/service");
    assert!(direct.iter().any(|(p, pid)| p == "/system/service/one" && *pid == a));
    assert!(direct.iter().any(|(p, pid)| p == "/system/service/two" && *pid == b));

    // Now add a deeper path and ensure direct listing filters it out
    let c = slab.allocate();
    reg.register("/system/service/two/grand".to_string(), c);

    let all_under_two = reg.list_children("/system/service/two");
    assert!(all_under_two.iter().any(|(p, pid)| p == "/system/service/two/grand" && *pid == c));

    let direct_under_two = reg.list_direct_children("/system/service/two");
    // direct_under_two should include the grand child (it's one level under /system/service/two)
    assert!(direct_under_two.iter().any(|(p, pid)| p == "/system/service/two/grand" && *pid == c));

    // ensure direct listing at the higher prefix doesn't show the grand child
    let direct_under_service = reg.list_direct_children("/system/service");
    assert!(!direct_under_service.iter().any(|(p, _)| p == "/system/service/two/grand"));

    // Watching the direct children makes them supervised
    for (_p, pid) in reg.list_direct_children("/system/service") {
        sup.watch(pid);
    }
    let children = reg.list_direct_children("/system/service");
    for (_p, pid) in children {
        assert!(sup.contains_child(pid));
    }
}

#[test]
fn register_resolve_unregister() {
    let mut reg = NameRegistry::new();
    assert_eq!(reg.resolve("auth"), None);
    reg.register("auth".to_string(), 7);
    assert_eq!(reg.resolve("auth"), Some(7));
    reg.register("auth".to_string(), 9);
    assert_eq!(reg.resolve("auth"), Some(9));
    reg.register("db".to_string(), 3);
    reg.unregister("auth");
    assert_eq!(reg.resolve("auth"), None);
    assert_eq!(reg.resolve("db"), Some(3));
    reg.unregister("missing");
    assert_eq!(reg.resolve("db"), Some(3));
}

fn sorted(mut v: Vec<(String, u64)>) -> Vec<(String, u64)> {
    v.sort();
    v
}

#[test]
fn root_prefixes_list_everything() {
    let mut reg = NameRegistry::new();
    reg.register("/a".to_string(), 1);
    reg.register("/a/b".to_string(), 2);
    reg.register("plain".to_string(), 3);
    let all = sorted(vec![("/a".to_string(), 1), ("/a/b".to_string(), 2), ("plain".to_string(), 3)]);
    assert_eq!(sorted(reg.list_children("")), all);
    assert_eq!(sorted(reg.list_children("/")), all);
    assert_eq!(sorted(reg.list_children("//")), all);
    // direct children of the root: no '/' past an optional leading one
    assert_eq!(
        sorted(reg.list_direct_children("/")),
        sorted(vec![("/a".to_string(), 1), ("plain".to_string(), 3)])
    );
}

#[test]
fn trailing_slashes_are_ignored() {
    let mut reg = NameRegistry::new();
    reg.register("/a/b".to_string(), 2);
    reg.register("/a/b/c".to_string(), 4);
    reg.register("/ab".to_string(), 5);
    assert_eq!(sorted(reg.list_children("/a/")), sorted(reg.list_children("/a")));
    assert_eq!(
        sorted(reg.list_children("/a///")),
        sorted(vec![("/a/b".to_string(), 2), ("/a/b/c".to_string(), 4)])
    );
    assert_eq!(reg.list_direct_children("/a/"), vec![("/a/b".to_string(), 2)]);
    // the prefix itself is not its own child
    assert!(reg.list_children("/a/b").iter().all(|(p, _)| p != "/a/b"));
}

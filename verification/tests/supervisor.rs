use iris::supervisor::{
    parse_strategy, ChildSpec, PidFactory, RestartBackoff, RestartStrategy, Supervisor,
};

type Factory = Box<dyn Fn() -> Result<u64, String>>;

struct Boxed(Factory);

impl PidFactory for Boxed {
    fn returning(pid: u64) -> Self {
        Boxed(Box::new(move || Ok(pid)))
    }
}

fn spec(f: Factory, strategy: RestartStrategy) -> ChildSpec<Boxed> {
    ChildSpec { factory: Boxed(f), strategy }
}

/// Follow a restart plan as the runtime does, without waiting between calls.
fn run_plan(sup: &mut Supervisor<Boxed>, plan: Vec<(u64, ChildSpec<Boxed>)>) -> Vec<u64> {
    let mut waits = Vec::new();
    let mut backoff = RestartBackoff::new();
    for (_old, s) in plan {
        backoff.begin_child();
        loop {
            backoff.start_attempt();
            match (s.factory.0)() {
                Ok(new_pid) => {
                    sup.add_child(new_pid, s);
                    break;
                }
                Err(err) => {
                    sup.record_error(err);
                    match backoff.after_failure() {
                        Some(ms) => waits.push(ms),
                        None => break,
                    }
                }
            }
        }
    }
    waits
}

#[test]
fn watch_and_unwatch() {
    let _ = tracing_subscriber::fmt::try_init();
    let mut s: Supervisor<Boxed> = Supervisor::new();
    s.watch(1);
    assert!(s.contains_child(1));
    s.unwatch(1);
    assert!(!s.contains_child(1));
}

#[test]
fn factory_failure_skips_restart() {
    let mut s: Supervisor<Boxed> = Supervisor::new();
    // Insert a child whose factory always fails
    s.add_child(42, spec(Box::new(|| Err("boom".to_string())), RestartStrategy::RestartOne));

    let plan = s.notify_exit(42);
    let waits = run_plan(&mut s, plan);

    assert_eq!(s.children_count(), 0);
    let errs = s.errors();
    assert!(errs[0].contains("boom"));
    assert_eq!(errs.len(), 3);
    assert_eq!(waits, vec![100, 200]);
}

#[test]
fn restart_one_replaces_only_the_failed_child() {
    let mut s: Supervisor<Boxed> = Supervisor::new();
    s.add_child(1, spec(Box::new(|| Ok(10)), RestartStrategy::RestartOne));
    s.add_child(2, spec(Box::new(|| Ok(20)), RestartStrategy::RestartOne));
    let plan = s.notify_exit(1);
    assert_eq!(plan.len(), 1);
    assert_eq!(plan[0].0, 1);
    run_plan(&mut s, plan);
    let mut pids = s.child_pids();
    pids.sort();
    assert_eq!(pids, vec![2, 10]);
    assert!(s.errors().is_empty());
}

#[test]
fn restart_all_replaces_every_child() {
    let mut s: Supervisor<Boxed> = Supervisor::new();
    s.add_child(1, spec(Box::new(|| Ok(10)), RestartStrategy::RestartAll));
    s.add_child(2, spec(Box::new(|| Ok(20)), RestartStrategy::RestartAll));
    let plan = s.notify_exit(1);
    assert_eq!(plan.len(), 2);
    assert_eq!(s.children_count(), 0);
    run_plan(&mut s, plan);
    let mut pids = s.child_pids();
    pids.sort();
    assert_eq!(pids, vec![10, 20]);
}

#[test]
fn stale_exit_restarts_nothing() {
    let mut s: Supervisor<Boxed> = Supervisor::new();
    s.add_child(1, spec(Box::new(|| Ok(10)), RestartStrategy::RestartAll));
    let plan = s.notify_exit(99);
    assert!(plan.is_empty());
    assert!(s.contains_child(1));
}

#[test]
fn backoff_doubles_across_children() {
    let mut s: Supervisor<Boxed> = Supervisor::new();
    s.add_child(1, spec(Box::new(|| Err("a".to_string())), RestartStrategy::RestartAll));
    s.add_child(2, spec(Box::new(|| Err("b".to_string())), RestartStrategy::RestartAll));
    let plan = s.notify_exit(2);
    let waits = run_plan(&mut s, plan);
    assert_eq!(waits, vec![100, 200, 400, 800]);
    assert_eq!(s.errors().len(), 6);
    assert_eq!(s.children_count(), 0);
}

#[test]
fn links_are_bidirectional() {
    let mut s: Supervisor<Boxed> = Supervisor::new();
    s.link(1, 2);
    s.link(1, 3);
    assert_eq!(s.linked_pids(1), vec![2, 3]);
    assert_eq!(s.linked_pids(2), vec![1]);
    assert_eq!(s.linked_pids(3), vec![1]);
    s.unlink(2, 1);
    assert_eq!(s.linked_pids(1), vec![3]);
    assert_eq!(s.linked_pids(2), Vec::<u64>::new());
    assert_eq!(s.linked_pids(9), Vec::<u64>::new());
}

#[test]
fn removed_child_loses_its_links() {
    let mut s: Supervisor<Boxed> = Supervisor::new();
    s.watch(1);
    s.link(1, 2);
    s.link(3, 1);
    s.link(2, 3);
    s.remove_child(1);
    assert!(!s.contains_child(1));
    assert_eq!(s.linked_pids(1), Vec::<u64>::new());
    assert_eq!(s.linked_pids(2), vec![3]);
    assert_eq!(s.linked_pids(3), vec![2]);
}

#[test]
fn restarted_child_loses_its_links() {
    let mut s: Supervisor<Boxed> = Supervisor::new();
    s.add_child(1, spec(Box::new(|| Ok(10)), RestartStrategy::RestartOne));
    s.link(1, 2);
    let _plan = s.notify_exit(1);
    assert_eq!(s.linked_pids(1), Vec::<u64>::new());
    assert_eq!(s.linked_pids(2), Vec::<u64>::new());
}

#[test]
fn strategy_names() {
    assert_eq!(parse_strategy("one"), Some(RestartStrategy::RestartOne));
    assert_eq!(parse_strategy("RestartOne"), Some(RestartStrategy::RestartOne));
    assert_eq!(parse_strategy("restart_one"), Some(RestartStrategy::RestartOne));
    assert_eq!(parse_strategy("ALL"), Some(RestartStrategy::RestartAll));
    assert_eq!(parse_strategy("restartall"), Some(RestartStrategy::RestartAll));
    assert_eq!(parse_strategy("Restart_All"), Some(RestartStrategy::RestartAll));
    assert_eq!(parse_strategy("restart"), None);
    assert_eq!(parse_strategy(""), None);
}

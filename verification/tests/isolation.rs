use netanvil::isolation::{
    parse_online_cpus, plan_thread, reset_affinity, shield_hot_cores, should_skip, ObservedThread,
    ShieldResult, ThreadPlan,
};

#[test]
fn skip_softirqd() {
    assert!(should_skip("ksoftirqd/0"));
    assert!(should_skip("ksoftirqd/3"));
}

#[test]
fn skip_percpu_kworker() {
    assert!(should_skip("kworker/2:0"));
    assert!(should_skip("kworker/0:1H"));
}

#[test]
fn allow_unbound_kworker() {
    assert!(!should_skip("kworker/u8:2"));
    assert!(!should_skip("kworker/u16:0"));
}

#[test]
fn skip_migration_and_watchdog() {
    assert!(should_skip("migration/1"));
    assert!(should_skip("watchdog/0"));
}

#[test]
fn allow_regular_threads() {
    assert!(!should_skip("sshd"));
    assert!(!should_skip("nginx"));
    assert!(!should_skip("netanvil-io-0"));
    assert!(!should_skip("systemd-journal"));
}

#[test]
fn a_bare_worker_prefix_is_bound() {
    assert!(should_skip("kworker/"));
    assert!(should_skip("cpuhp/1"));
    assert!(should_skip("idle_inject/2"));
    assert!(should_skip("rcuc/3"));
    assert!(!should_skip("rcu_preempt"));
}

fn thread(comm: &str, affinity: Option<Vec<usize>>, migrates: bool) -> ObservedThread {
    ObservedThread { comm: comm.to_string(), affinity, migrates }
}

#[test]
fn sweep_counts_each_kind_once() {
    let threads = vec![
        thread("ksoftirqd/1", Some(vec![1]), true),
        thread("sshd", Some(vec![0, 1, 2, 3]), true),
        thread("nginx", Some(vec![3]), true),
        thread("cron", Some(vec![2]), false),
        thread("gone", None, true),
    ];
    let hot = vec![0usize, 1, 2];
    let r = shield_hot_cores(&threads, &hot);
    assert_eq!(r, ShieldResult { migrated: 1, skipped: 1, failed: 1 });
    assert_eq!(plan_thread("nginx", &Some(vec![3]), &hot), ThreadPlan::Leave);
    assert_eq!(plan_thread("gone", &None, &hot), ThreadPlan::Leave);
    assert_eq!(plan_thread("cron", &Some(vec![2]), &hot), ThreadPlan::Migrate);
}

#[test]
fn online_list_is_read_in_ranges() {
    assert_eq!(parse_online_cpus("0-3,5,7-9\n"), vec![(0, 3), (5, 5), (7, 9)]);
    assert_eq!(parse_online_cpus("3-1,x,+4, 5"), vec![(4, 4)]);
    // A bound that cannot be read counts as 0.
    assert_eq!(parse_online_cpus("a-2"), vec![(0, 2)]);
    assert_eq!(parse_online_cpus(""), Vec::<(usize, usize)>::new());
}

#[test]
fn affinity_reset_counts_online_cpus() {
    let online = parse_online_cpus("0-3,5,7-9");
    assert_eq!(reset_affinity(&online, true), 8);
    assert_eq!(reset_affinity(&online, false), 0);
    assert_eq!(reset_affinity(&Vec::new(), true), 0);
}

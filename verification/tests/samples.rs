use check_sysstat_cpu::order::{cpu_sort_key, sort_cpu_stats};
use check_sysstat_cpu::softirqs::{
    get_softirqs, softirq_count, softirqs_with_names, try_get_softirqs, SoftirqTable,
};
use check_sysstat_cpu::stat::{
    compare_cpu_infos, cpu_softirqs_diff, cpu_time_diff, cpu_time_total, get_cpu_stats,
    samples_fit, try_compare_cpu_infos, try_get_cpu_stats, CpuSoftIrqs, CpuStat, CpuTime,
};

fn lines(text: &str) -> Vec<String> {
    text.lines().map(|l| l.to_string()).collect()
}

const SOFTIRQS: &str = "                    CPU0       CPU1
          HI:          1          0
       TIMER:        100        200
      NET_TX:          2          3
      NET_RX:          4          5
       BLOCK:          6          7
    IRQ_POLL:          0          0
     TASKLET:          8          9
       SCHED:         10         11
     HRTIMER:          0          1
         RCU:         12         13";

const STAT: &str = "cpu  10 20 30 40 50 60 70 80 90 100
cpu0 1 2 3 4 5 6 7 8 9 10
cpu1 9 8 7 6 5 4 3 2 1 0
intr 12345 1 2
ctxt 5000
btime 1700000000
processes 321
procs_running 2
procs_blocked 1
softirq 100 1 2";

fn count(t: &SoftirqTable, cpu: &str, irq: &str) -> Option<u32> {
    softirq_count(t, &cpu.to_string(), &irq.to_string())
}

fn irqs(s: &CpuSoftIrqs) -> [i64; 10] {
    [s.hi, s.timer, s.net_tx, s.net_rx, s.block, s.irq_poll, s.tasklet, s.sched, s.hrtimer, s.rcu]
}

fn times(t: &CpuTime) -> (i64, i64, i64, i64, [Option<i64>; 6]) {
    (t.user, t.nice, t.system, t.idle, [t.iowait, t.irq, t.softirq, t.steal, t.guest, t.guest_nice])
}

fn time(base: i64) -> CpuTime {
    CpuTime {
        user: base,
        nice: base + 1,
        system: base + 2,
        idle: base + 3,
        iowait: Some(base + 4),
        irq: Some(base + 5),
        softirq: None,
        steal: Some(base + 7),
        guest: Some(base + 8),
        guest_nice: Some(base + 9),
    }
}

fn irq_counts(base: i64) -> CpuSoftIrqs {
    CpuSoftIrqs {
        hi: base,
        timer: base * 2,
        net_tx: 0,
        net_rx: 1,
        block: 2,
        irq_poll: 3,
        tasklet: 4,
        sched: 5,
        hrtimer: 6,
        rcu: 7,
    }
}

fn sample(name: &str, base: i64) -> CpuStat {
    CpuStat { name: name.to_string(), stat: time(base), softirqs: irq_counts(base) }
}

#[test]
fn softirqs_per_cpu_and_totals() {
    let t = get_softirqs(&lines(SOFTIRQS));
    assert_eq!(count(&t, "cpu0", "TIMER:"), Some(100));
    assert_eq!(count(&t, "cpu1", "RCU:"), Some(13));
    assert_eq!(count(&t, "cpu", "TIMER:"), Some(300));
    assert_eq!(count(&t, "cpu", "HRTIMER:"), Some(1));
    assert_eq!(count(&t, "CPU0", "TIMER:"), None);
    assert_eq!(count(&t, "cpu0", "NOPE:"), None);
    let names: Vec<&str> = t.cpus.iter().map(|c| c.0.as_str()).collect();
    assert_eq!(names, vec!["cpu0", "cpu1", "cpu"]);
}

#[test]
fn softirqs_refusals() {
    assert!(try_get_softirqs(&Vec::new()).is_none());
    assert!(try_get_softirqs(&lines("CPU0\nHI: x")).is_none());
    assert!(try_get_softirqs(&lines("CPU0\nHI: 1 2")).is_none());
    assert!(try_get_softirqs(&lines("CPU0\nHI: 1\n\nTIMER: 2")).is_none());
    assert!(try_get_softirqs(&lines("CPU0 CPU1\nHI: 4294967295 1")).is_none());
    assert!(try_get_softirqs(&lines("CPU0 CPU1\nHI: 4294967295 0")).is_some());
    let t = try_get_softirqs(&lines("CPU0 CPU1\nHI: 3")).unwrap();
    assert_eq!(count(&t, "cpu1", "HI:"), None);
    assert_eq!(count(&t, "cpu", "HI:"), Some(3));
}

#[test]
fn proc_stat_sample() {
    let t = get_softirqs(&lines(SOFTIRQS));
    let (cpus, ctxt, processes, running, blocked) = get_cpu_stats(&lines(STAT), &t);
    assert_eq!((ctxt, processes, running, blocked), (5000, 321, 2, 1));
    let names: Vec<&str> = cpus.iter().map(|c| c.name.as_str()).collect();
    assert_eq!(names, vec!["cpu", "cpu0", "cpu1"]);
    assert_eq!(
        times(&cpus[0].stat),
        (10, 20, 30, 40, [Some(50), Some(60), Some(70), Some(80), Some(90), Some(100)])
    );
    assert_eq!(times(&cpus[2].stat), (9, 8, 7, 6, [Some(5), Some(4), Some(3), Some(2), Some(1), Some(0)]));
    assert_eq!(irqs(&cpus[0].softirqs), [1, 300, 5, 9, 13, 0, 17, 21, 1, 25]);
    assert_eq!(irqs(&cpus[1].softirqs), [1, 100, 2, 4, 6, 0, 8, 10, 0, 12]);
}

#[test]
fn proc_stat_refusals() {
    let t = get_softirqs(&lines(SOFTIRQS));
    // too few times on a CPU line
    assert!(try_get_cpu_stats(&lines("cpu0 1 2 3"), &t).is_none());
    // a CPU without interrupt counts
    assert!(try_get_cpu_stats(&lines("cpu7 1 2 3 4 5 6 7 8 9 10"), &t).is_none());
    // a counter that is not a number
    assert!(try_get_cpu_stats(&lines("ctxt many"), &t).is_none());
    assert!(try_get_cpu_stats(&lines("processes"), &t).is_none());
    // words that are not numbers are skipped on a CPU line
    let (cpus, ..) = try_get_cpu_stats(&lines("cpu0 1 x 2 3 4 5 6 7 8 9 10"), &t).unwrap();
    assert_eq!(cpus[0].stat.nice, 2);
    let (cpus, ctxt, ..) = try_get_cpu_stats(&Vec::new(), &t).unwrap();
    assert!(cpus.is_empty());
    assert_eq!(ctxt, 0);
}

#[test]
fn differences_state_by_state() {
    let d = cpu_time_diff(&time(100), &time(40));
    assert_eq!(times(&d), (60, 60, 60, 60, [Some(60), Some(60), None, Some(60), Some(60), Some(60)]));
    let s = cpu_softirqs_diff(&irq_counts(10), &irq_counts(3));
    assert_eq!(irqs(&s), [7, 14, 0, 0, 0, 0, 0, 0, 0, 0]);
}

#[test]
fn compare_lists_changes_and_differences() {
    let now = vec![sample("cpu", 100), sample("cpu0", 50), sample("cpu2", 20)];
    let last = vec![sample("cpu", 90), sample("cpu0", 45), sample("cpu1", 10)];
    let (diff, changes) = compare_cpu_infos(now, last);
    let names: Vec<&str> = diff.iter().map(|c| c.name.as_str()).collect();
    assert_eq!(names, vec!["cpu", "cpu0"]);
    assert_eq!(diff[0].stat.user, 10);
    assert_eq!(diff[1].softirqs.timer, 10);
    let entries: Vec<(String, &str)> = changes.iter().map(|(k, v)| (k.clone(), *v)).collect();
    assert_eq!(entries, vec![("cpu1".to_string(), "removed"), ("cpu2".to_string(), "added")]);
}

#[test]
fn compare_same_sample_is_zero() {
    let (diff, changes) = compare_cpu_infos(vec![sample("cpu", 7)], vec![sample("cpu", 7)]);
    assert_eq!(diff.len(), 1);
    assert_eq!(times(&diff[0].stat), (0, 0, 0, 0, [Some(0), Some(0), None, Some(0), Some(0), Some(0)]));
    assert!(changes.is_empty());
}

#[test]
fn compare_against_nothing_lists_all_as_added() {
    let (diff, changes) = compare_cpu_infos(vec![sample("cpu", 1), sample("cpu0", 1)], Vec::new());
    assert!(diff.is_empty());
    let entries: Vec<(String, &str)> = changes.iter().map(|(k, v)| (k.clone(), *v)).collect();
    assert_eq!(entries, vec![("cpu".to_string(), "added"), ("cpu0".to_string(), "added")]);
}

fn with_user(name: &str, user: i64) -> CpuStat {
    let mut s = sample(name, 0);
    s.stat.user = user;
    s
}

#[test]
fn compare_refuses_overflowing_differences() {
    assert!(!samples_fit(&vec![with_user("cpu", i64::MAX - 10)], &vec![with_user("cpu", -20)]));
    assert!(try_compare_cpu_infos(vec![with_user("cpu", i64::MAX - 10)], vec![with_user("cpu", -20)]).is_none());
    assert!(samples_fit(&vec![with_user("cpu", i64::MAX - 10)], &vec![with_user("cpu1", -20)]));
    assert!(samples_fit(&vec![with_user("cpu", i64::MAX - 10)], &vec![with_user("cpu", -10)]));
    let (diff, _) = try_compare_cpu_infos(vec![sample("cpu", 5)], vec![sample("cpu", 2)]).unwrap();
    assert_eq!(diff[0].stat.idle, 3);
}

#[test]
fn sort_puts_totals_first_then_by_number() {
    let mut v = vec![
        sample("cpu10", 0),
        sample("cpu2", 1),
        sample("cpux", 2),
        sample("cpu", 3),
        sample("cpu0", 4),
    ];
    sort_cpu_stats(&mut v);
    let names: Vec<&str> = v.iter().map(|c| c.name.as_str()).collect();
    assert_eq!(names, vec!["cpu", "cpu0", "cpu2", "cpu10", "cpux"]);
}

#[test]
fn sort_puts_a_lone_unranked_name_after_the_totals() {
    let mut v = vec![sample("total", 0), sample("cpu", 1)];
    sort_cpu_stats(&mut v);
    let names: Vec<&str> = v.iter().map(|c| c.name.as_str()).collect();
    assert_eq!(names, vec!["cpu", "total"]);
    let mut one = vec![sample("total", 0)];
    sort_cpu_stats(&mut one);
    assert_eq!(one[0].name, "total");
}

#[test]
fn sort_keys() {
    assert_eq!(cpu_sort_key(&"cpu".to_string()), Some(i32::MIN as i64 - 1));
    assert_eq!(cpu_sort_key(&"cpu12".to_string()), Some(12));
    assert_eq!(cpu_sort_key(&"cpu-3".to_string()), Some(-3));
    assert_eq!(cpu_sort_key(&"cpu99999999999".to_string()), Some(i32::MAX as i64));
    assert_eq!(cpu_sort_key(&"xcpu4cpu5".to_string()), Some(4));
    assert_eq!(cpu_sort_key(&"total".to_string()), None);
}

#[test]
fn sort_keeps_order_of_equal_ranks() {
    let mut v = vec![sample("cpu3", 1), sample("cpuA", 2), sample("cpu3", 3), sample("cpuB", 4)];
    sort_cpu_stats(&mut v);
    let order: Vec<(String, i64)> = v.iter().map(|c| (c.name.clone(), c.stat.user)).collect();
    assert_eq!(
        order,
        vec![
            ("cpu3".to_string(), 1),
            ("cpu3".to_string(), 3),
            ("cpuA".to_string(), 2),
            ("cpuB".to_string(), 4)
        ]
    );
}

#[test]
fn total_time_of_all_states() {
    assert_eq!(cpu_time_total(&time(0)), Some(0 + 1 + 2 + 3 + 4 + 5 + 7 + 8 + 9));
    let mut t = time(1);
    t.iowait = None;
    t.steal = None;
    assert_eq!(cpu_time_total(&t), Some(1 + 2 + 3 + 4 + 6 + 9 + 10));
    let mut over = time(0);
    over.user = i64::MAX;
    assert_eq!(cpu_time_total(&over), None);
    let mut back = time(0);
    back.user = i64::MAX;
    back.nice = -5;
    back.system = 0;
    back.idle = 0;
    back.iowait = None;
    back.irq = None;
    back.steal = None;
    back.guest = None;
    back.guest_nice = None;
    assert_eq!(cpu_time_total(&back), Some(i64::MAX - 5));
}

#[test]
fn softirqs_with_given_names() {
    let names = vec!["a".to_string(), "b".to_string()];
    let t = softirqs_with_names(&names, &lines("ignored header\nHI: 1 2\nRCU: 3 4")).unwrap();
    assert_eq!(count(&t, "a", "HI:"), Some(1));
    assert_eq!(count(&t, "b", "RCU:"), Some(4));
    assert_eq!(count(&t, "cpu", "RCU:"), Some(7));
    assert_eq!(count(&t, "cpu0", "HI:"), None);
    assert!(softirqs_with_names(&names, &lines("h\nHI: 1 2 3")).is_none());
    let empty = softirqs_with_names(&names, &Vec::new()).unwrap();
    let cpus: Vec<&str> = empty.cpus.iter().map(|c| c.0.as_str()).collect();
    assert_eq!(cpus, vec!["a", "b", "cpu"]);
}

#[test]
fn compare_with_reordered_copy_is_zero() {
    let now = vec![sample("cpu", 5), sample("cpu0", 6), sample("cpu1", 7)];
    let last = vec![sample("cpu1", 7), sample("cpu", 5), sample("cpu0", 6)];
    let (diff, changes) = compare_cpu_infos(now, last);
    assert!(changes.is_empty());
    assert_eq!(diff.len(), 3);
    for d in &diff {
        assert_eq!(times(&d.stat), (0, 0, 0, 0, [Some(0), Some(0), None, Some(0), Some(0), Some(0)]));
        assert_eq!(irqs(&d.softirqs), [0; 10]);
    }
}

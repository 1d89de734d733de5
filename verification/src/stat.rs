//! CPU times and software-interrupt counts of `/proc/stat` and
//! `/proc/softirqs`, and the difference between two samples.
use linked_hash_map::LinkedHashMap;
use vstd::prelude::*;

use crate::linked::{change_table_entries, change_table_insert, insert_entry, new_change_table};
use crate::softirqs::{count_of, lines_view, softirq_count, Assoc, SoftirqTable};
use crate::text::{
    chars_of, parse_i64, parse_i64_spec, parse_usize, parse_usize_spec, split_words, starts_with,
    starts_with_str, string_of, views, words,
};

verus! {

/// Software-interrupt counts of one CPU (or of all, for "cpu").
#[derive(Debug, Clone, Copy)]
pub struct CpuSoftIrqs {
    pub hi: i64,
    pub timer: i64,
    pub net_tx: i64,
    pub net_rx: i64,
    pub block: i64,
    pub irq_poll: i64,
    pub tasklet: i64,
    pub sched: i64,
    pub hrtimer: i64,
    pub rcu: i64,
}

/// Time spent by one CPU (or by all, for "cpu") in each state, in clock
/// ticks; the states after `idle` are absent on old kernels.
#[derive(Debug, Clone, Copy)]
pub struct CpuTime {
    pub user: i64,
    pub nice: i64,
    pub system: i64,
    pub idle: i64,
    pub iowait: Option<i64>,
    pub irq: Option<i64>,
    pub softirq: Option<i64>,
    pub steal: Option<i64>,
    pub guest: Option<i64>,
    pub guest_nice: Option<i64>,
}

/// One CPU's line of `/proc/stat` with its software-interrupt counts.
#[derive(Debug)]
pub struct CpuStat {
    pub name: String,
    pub stat: CpuTime,
    pub softirqs: CpuSoftIrqs,
}

/// A `CpuStat` seen through the text of its name.
pub struct CpuStatView {
    pub name: Seq<char>,
    pub stat: CpuTime,
    pub softirqs: CpuSoftIrqs,
}

impl View for CpuStat {
    type V = CpuStatView;

    open spec fn view(&self) -> CpuStatView {
        CpuStatView { name: self.name@, stat: self.stat, softirqs: self.softirqs }
    }
}

/// The views of a sequence of samples.
pub open spec fn stats_view(v: Seq<CpuStat>) -> Seq<CpuStatView> {
    v.map_values(|s: CpuStat| s@)
}

/// `a - b` of two optional counts: present when both are.
pub open spec fn opt_diff(a: Option<i64>, b: Option<i64>) -> Option<i64> {
    match (a, b) {
        (Some(x), Some(y)) => Some((x - y) as i64),
        _ => None,
    }
}

/// `a - b` can be computed in an `i64`, or one side is absent.
pub open spec fn opt_diff_fits(a: Option<i64>, b: Option<i64>) -> bool {
    match (a, b) {
        (Some(x), Some(y)) => i64::MIN <= x - y <= i64::MAX,
        _ => true,
    }
}

pub open spec fn fits(x: int) -> bool {
    i64::MIN <= x <= i64::MAX
}

/// Every difference between the times `a` and `b` can be computed.
pub open spec fn time_diff_fits(a: CpuTime, b: CpuTime) -> bool {
    &&& fits(a.user - b.user)
    &&& fits(a.nice - b.nice)
    &&& fits(a.system - b.system)
    &&& fits(a.idle - b.idle)
    &&& opt_diff_fits(a.iowait, b.iowait)
    &&& opt_diff_fits(a.irq, b.irq)
    &&& opt_diff_fits(a.softirq, b.softirq)
    &&& opt_diff_fits(a.steal, b.steal)
    &&& opt_diff_fits(a.guest, b.guest)
    &&& opt_diff_fits(a.guest_nice, b.guest_nice)
}

/// The times of `a` less those of `b`, state by state.
pub open spec fn time_diff(a: CpuTime, b: CpuTime) -> CpuTime {
    CpuTime {
        user: (a.user - b.user) as i64,
        nice: (a.nice - b.nice) as i64,
        system: (a.system - b.system) as i64,
        idle: (a.idle - b.idle) as i64,
        iowait: opt_diff(a.iowait, b.iowait),
        irq: opt_diff(a.irq, b.irq),
        softirq: opt_diff(a.softirq, b.softirq),
        steal: opt_diff(a.steal, b.steal),
        guest: opt_diff(a.guest, b.guest),
        guest_nice: opt_diff(a.guest_nice, b.guest_nice),
    }
}

/// Every difference between the counts `a` and `b` can be computed.
pub open spec fn softirqs_diff_fits(a: CpuSoftIrqs, b: CpuSoftIrqs) -> bool {
    &&& fits(a.hi - b.hi)
    &&& fits(a.timer - b.timer)
    &&& fits(a.net_tx - b.net_tx)
    &&& fits(a.net_rx - b.net_rx)
    &&& fits(a.block - b.block)
    &&& fits(a.irq_poll - b.irq_poll)
    &&& fits(a.tasklet - b.tasklet)
    &&& fits(a.sched - b.sched)
    &&& fits(a.hrtimer - b.hrtimer)
    &&& fits(a.rcu - b.rcu)
}

/// The counts of `a` less those of `b`, interrupt by interrupt.
pub open spec fn softirqs_diff(a: CpuSoftIrqs, b: CpuSoftIrqs) -> CpuSoftIrqs {
    CpuSoftIrqs {
        hi: (a.hi - b.hi) as i64,
        timer: (a.timer - b.timer) as i64,
        net_tx: (a.net_tx - b.net_tx) as i64,
        net_rx: (a.net_rx - b.net_rx) as i64,
        block: (a.block - b.block) as i64,
        irq_poll: (a.irq_poll - b.irq_poll) as i64,
        tasklet: (a.tasklet - b.tasklet) as i64,
        sched: (a.sched - b.sched) as i64,
        hrtimer: (a.hrtimer - b.hrtimer) as i64,
        rcu: (a.rcu - b.rcu) as i64,
    }
}

fn sub_opt(a: Option<i64>, b: Option<i64>) -> (r: Option<i64>)
    requires
        opt_diff_fits(a, b),
    ensures
        r == opt_diff(a, b),
{
    match (a, b) {
        (Some(x), Some(y)) => Some(x - y),
        _ => None,
    }
}

/// The times of `a` less those of `b`.
pub fn cpu_time_diff(a: &CpuTime, b: &CpuTime) -> (r: CpuTime)
    requires
        time_diff_fits(*a, *b),
    ensures
        r == time_diff(*a, *b),
{
    CpuTime {
        user: a.user - b.user,
        nice: a.nice - b.nice,
        system: a.system - b.system,
        idle: a.idle - b.idle,
        iowait: sub_opt(a.iowait, b.iowait),
        irq: sub_opt(a.irq, b.irq),
        softirq: sub_opt(a.softirq, b.softirq),
        steal: sub_opt(a.steal, b.steal),
        guest: sub_opt(a.guest, b.guest),
        guest_nice: sub_opt(a.guest_nice, b.guest_nice),
    }
}

/// The counts of `a` less those of `b`.
pub fn cpu_softirqs_diff(a: &CpuSoftIrqs, b: &CpuSoftIrqs) -> (r: CpuSoftIrqs)
    requires
        softirqs_diff_fits(*a, *b),
    ensures
        r == softirqs_diff(*a, *b),
{
    CpuSoftIrqs {
        hi: a.hi - b.hi,
        timer: a.timer - b.timer,
        net_tx: a.net_tx - b.net_tx,
        net_rx: a.net_rx - b.net_rx,
        block: a.block - b.block,
        irq_poll: a.irq_poll - b.irq_poll,
        tasklet: a.tasklet - b.tasklet,
        sched: a.sched - b.sched,
        hrtimer: a.hrtimer - b.hrtimer,
        rcu: a.rcu - b.rcu,
    }
}

// ---------------------------------------------------------------- comparing two samples

/// Whether `i` is the last position of `v` with its name: a sample keeps,
/// for each name, its last entry.
pub open spec fn is_last(v: Seq<CpuStatView>, i: int) -> bool {
    forall|j: int| i < j < v.len() ==> (#[trigger] v[j]).name != v[i].name
}

/// The last position of `v` with the name `name`.
pub open spec fn last_index(v: Seq<CpuStatView>, name: Seq<char>) -> Option<int>
    decreases v.len(),
{
    if v.len() == 0 {
        None
    } else if v.last().name == name {
        Some(v.len() - 1)
    } else {
        last_index(v.drop_last(), name)
    }
}

/// The CPUs of the current sample `now` also found in the earlier sample
/// `last`, in the order of `last`, each with its current times and counts
/// less the earlier ones: (name, time difference, count difference).
pub open spec fn diffs_upto(now: Seq<CpuStatView>, last: Seq<CpuStatView>, k: int) -> Seq<(Seq<char>, CpuTime, CpuSoftIrqs)>
    decreases k,
{
    if k <= 0 {
        seq![]
    } else {
        let prev = diffs_upto(now, last, k - 1);
        let e2 = last[k - 1];
        if is_last(last, k - 1) && last_index(now, e2.name) is Some {
            let e1 = now[last_index(now, e2.name)->0];
            prev.push((e1.name, time_diff(e1.stat, e2.stat), softirqs_diff(e1.softirqs, e2.softirqs)))
        } else {
            prev
        }
    }
}

/// The CPUs of `last` that `now` lacks ("removed"), then those of `now`
/// that `last` lacks ("added"), each name once, as (name, change).
pub open spec fn changes_upto(from: Seq<CpuStatView>, other: Seq<CpuStatView>, k: int, tag: Seq<char>) -> Seq<(Seq<char>, Seq<char>)>
    decreases k,
{
    if k <= 0 {
        seq![]
    } else {
        let prev = changes_upto(from, other, k - 1, tag);
        if is_last(from, k - 1) && last_index(other, from[k - 1].name) is None {
            prev.push((from[k - 1].name, tag))
        } else {
            prev
        }
    }
}

/// The table after inserting `pairs` one after the other into `es`.
pub open spec fn insert_all(es: Seq<(Seq<char>, Seq<char>)>, pairs: Seq<(Seq<char>, Seq<char>)>) -> Seq<(Seq<char>, Seq<char>)>
    decreases pairs.len(),
{
    if pairs.len() == 0 {
        es
    } else {
        insert_entry(insert_all(es, pairs.drop_last()), pairs.last().0, pairs.last().1)
    }
}

/// Every difference that comparing `now` with `last` computes fits an `i64`.
pub open spec fn samples_comparable(now: Seq<CpuStatView>, last: Seq<CpuStatView>) -> bool {
    forall|i: int|
        0 <= i < last.len() && is_last(last, i) && #[trigger] last_index(now, last[i].name) is Some
            ==> {
            let e1 = now[last_index(now, last[i].name)->0];
            time_diff_fits(e1.stat, last[i].stat) && softirqs_diff_fits(e1.softirqs, last[i].softirqs)
        }
}

pub proof fn lemma_last_index(v: Seq<CpuStatView>, name: Seq<char>)
    ensures
        match last_index(v, name) {
            Some(j) => 0 <= j < v.len() && v[j].name == name && forall|k: int|
                j < k < v.len() ==> (#[trigger] v[k]).name != name,
            None => forall|k: int| 0 <= k < v.len() ==> (#[trigger] v[k]).name != name,
        },
    decreases v.len(),
{
    if v.len() > 0 {
        let w = v.drop_last();
        lemma_last_index(w, name);
        if v.last().name != name {
            match last_index(v, name) {
                Some(j) => {
                    assert forall|k: int| j < k < v.len() implies (#[trigger] v[k]).name != name by {
                        if k < v.len() - 1 {
                            assert(w[k] == v[k]);
                        }
                    }
                },
                None => {
                    assert forall|k: int| 0 <= k < v.len() implies (#[trigger] v[k]).name != name by {
                        if k < v.len() - 1 {
                            assert(w[k] == v[k]);
                        }
                    }
                },
            }
        }
    }
}

/// The last position of `v` whose name is `name`.
fn find_last(v: &Vec<CpuStat>, name: &String) -> (r: Option<usize>)
    ensures
        match r {
            Some(j) => j < v@.len() && last_index(stats_view(v@), name@) == Some(j as int),
            None => last_index(stats_view(v@), name@) is None,
        },
{
    let ghost sv = stats_view(v@);
    proof {
        lemma_last_index(sv, name@);
    }
    let mut i = v.len();
    while i > 0
        invariant
            i <= v@.len(),
            sv == stats_view(v@),
            forall|k: int| i <= k < v@.len() ==> (#[trigger] sv[k]).name != name@,
            match last_index(sv, name@) {
                Some(j) => 0 <= j < sv.len() && sv[j].name == name@ && forall|k: int|
                    j < k < sv.len() ==> (#[trigger] sv[k]).name != name@,
                None => forall|k: int| 0 <= k < sv.len() ==> (#[trigger] sv[k]).name != name@,
            },
        decreases i,
    {
        i = i - 1;
        assert(sv[i as int] == v@[i as int]@);
        if v[i].name == *name {
            return Some(i);
        }
    }
    None
}

/// Whether position `i` of `v` is the last one with its name.
fn last_of_name(v: &Vec<CpuStat>, i: usize) -> (r: bool)
    requires
        i < v@.len(),
    ensures
        r == is_last(stats_view(v@), i as int),
{
    let ghost sv = stats_view(v@);
    let n = v.len();
    let mut j = i + 1;
    while j < n
        invariant
            i < j <= n == v@.len(),
            sv == stats_view(v@),
            forall|k: int| i < k < j ==> (#[trigger] sv[k]).name != sv[i as int].name,
        decreases v@.len() - j,
    {
        assert(sv[j as int] == v@[j as int]@);
        if v[j].name == v[i].name {
            return false;
        }
        j = j + 1;
    }
    true
}

/// Compares the current sample `v1` with the earlier sample `v2`: for each
/// CPU found in both, its times and counts of `v1` less those of `v2`
/// (when a name occurs more than once in a sample, its last entry counts);
/// and, in the table, the CPUs of `v2` missing from `v1` marked "removed",
/// then those of `v1` missing from `v2` marked "added".
pub fn compare_cpu_infos(v1: Vec<CpuStat>, v2: Vec<CpuStat>) -> (r: (Vec<CpuStat>, LinkedHashMap<String, &'static str>))
    requires
        samples_comparable(stats_view(v1@), stats_view(v2@)),
    ensures
        stats_view(r.0@).map_values(|d: CpuStatView| (d.name, d.stat, d.softirqs)) == diffs_upto(
            stats_view(v1@),
            stats_view(v2@),
            v2@.len() as int,
        ),
        change_table_entries(r.1) == insert_all(
            seq![],
            changes_upto(stats_view(v2@), stats_view(v1@), v2@.len() as int, "removed"@)
                + changes_upto(stats_view(v1@), stats_view(v2@), v1@.len() as int, "added"@),
        ),
{
    let ghost s1 = stats_view(v1@);
    let ghost s2 = stats_view(v2@);
    let mut diff_vec: Vec<CpuStat> = Vec::new();
    let mut added_removed = new_change_table();
    let ghost removed = changes_upto(s2, s1, v2@.len() as int, "removed"@);
    let ghost added = changes_upto(s1, s2, v1@.len() as int, "added"@);
    for i in 0..v2.len()
        invariant
            s1 == stats_view(v1@),
            s2 == stats_view(v2@),
            samples_comparable(s1, s2),
            stats_view(diff_vec@).map_values(|d: CpuStatView| (d.name, d.stat, d.softirqs))
                == diffs_upto(s1, s2, i as int),
            change_table_entries(added_removed) == insert_all(
                seq![],
                changes_upto(s2, s1, i as int, "removed"@),
            ),
    {
        let ghost before = diff_vec@;
        let ghost pairs = changes_upto(s2, s1, i as int, "removed"@);
        assert(s2[i as int] == v2@[i as int]@);
        if last_of_name(&v2, i) {
            match find_last(&v1, &v2[i].name) {
                Some(j) => {
                    assert(s1[j as int] == v1@[j as int]@);
                    let v1_cpu = &v1[j];
                    let v2_cpu = &v2[i];
                    let stat = cpu_time_diff(&v1_cpu.stat, &v2_cpu.stat);
                    let softirqs = cpu_softirqs_diff(&v1_cpu.softirqs, &v2_cpu.softirqs);
                    diff_vec.push(CpuStat { name: v1_cpu.name.clone(), stat, softirqs });
                    assert(stats_view(diff_vec@).map_values(
                        |d: CpuStatView| (d.name, d.stat, d.softirqs),
                    ) =~= diffs_upto(s1, s2, i as int + 1));
                },
                None => {
                    change_table_insert(&mut added_removed, v2[i].name.clone(), "removed");
                    assert(stats_view(diff_vec@).map_values(
                        |d: CpuStatView| (d.name, d.stat, d.softirqs),
                    ) =~= diffs_upto(s1, s2, i as int + 1));
                },
            }
        } else {
        }
        assert(changes_upto(s2, s1, i as int + 1, "removed"@) =~= (if is_last(s2, i as int) && last_index(s1, s2[i as int].name) is None { pairs.push((s2[i as int].name, "removed"@)) } else { pairs }));
        assert(pairs.push((s2[i as int].name, "removed"@)).drop_last() =~= pairs);
    }
    for i in 0..v1.len()
        invariant
            s1 == stats_view(v1@),
            s2 == stats_view(v2@),
            removed == changes_upto(s2, s1, v2@.len() as int, "removed"@),
            change_table_entries(added_removed) == insert_all(
                seq![],
                removed + changes_upto(s1, s2, i as int, "added"@),
            ),
    {
        assert(s1[i as int] == v1@[i as int]@);
        let ghost pairs = removed + changes_upto(s1, s2, i as int, "added"@);
        if last_of_name(&v1, i) {
            match find_last(&v2, &v1[i].name) {
                Some(_) => {},
                None => {
                    change_table_insert(&mut added_removed, v1[i].name.clone(), "added");
                    assert((removed + changes_upto(s1, s2, i as int + 1, "added"@)).drop_last() =~= pairs);
                },
            }
        }
        assert(removed + changes_upto(s1, s2, i as int + 1, "added"@) =~= (if is_last(s1, i as int) && last_index(s2, s1[i as int].name) is None { pairs.push((s1[i as int].name, "added"@)) } else { pairs }));
    }
    (diff_vec, added_removed)
}

fn diff_fits(a: i64, b: i64) -> (r: bool)
    ensures
        r == fits(a - b),
{
    a.checked_sub(b).is_some()
}

fn opt_diff_ok(a: Option<i64>, b: Option<i64>) -> (r: bool)
    ensures
        r == opt_diff_fits(a, b),
{
    match (a, b) {
        (Some(x), Some(y)) => diff_fits(x, y),
        _ => true,
    }
}

fn time_diff_ok(a: &CpuTime, b: &CpuTime) -> (r: bool)
    ensures
        r == time_diff_fits(*a, *b),
{
    diff_fits(a.user, b.user) && diff_fits(a.nice, b.nice) && diff_fits(a.system, b.system)
        && diff_fits(a.idle, b.idle) && opt_diff_ok(a.iowait, b.iowait) && opt_diff_ok(a.irq, b.irq)
        && opt_diff_ok(a.softirq, b.softirq) && opt_diff_ok(a.steal, b.steal)
        && opt_diff_ok(a.guest, b.guest) && opt_diff_ok(a.guest_nice, b.guest_nice)
}

fn softirqs_diff_ok(a: &CpuSoftIrqs, b: &CpuSoftIrqs) -> (r: bool)
    ensures
        r == softirqs_diff_fits(*a, *b),
{
    diff_fits(a.hi, b.hi) && diff_fits(a.timer, b.timer) && diff_fits(a.net_tx, b.net_tx)
        && diff_fits(a.net_rx, b.net_rx) && diff_fits(a.block, b.block) && diff_fits(
        a.irq_poll,
        b.irq_poll,
    ) && diff_fits(a.tasklet, b.tasklet) && diff_fits(a.sched, b.sched) && diff_fits(
        a.hrtimer,
        b.hrtimer,
    ) && diff_fits(a.rcu, b.rcu)
}

/// Whether every difference that comparing the current sample `v1` with
/// the earlier sample `v2` computes fits an `i64`.
pub fn samples_fit(v1: &Vec<CpuStat>, v2: &Vec<CpuStat>) -> (r: bool)
    ensures
        r == samples_comparable(stats_view(v1@), stats_view(v2@)),
{
    let ghost s1 = stats_view(v1@);
    let ghost s2 = stats_view(v2@);
    for i in 0..v2.len()
        invariant
            s1 == stats_view(v1@),
            s2 == stats_view(v2@),
            forall|k: int|
                0 <= k < i && is_last(s2, k) && #[trigger] last_index(s1, s2[k].name) is Some
                    ==> {
                    let e1 = s1[last_index(s1, s2[k].name)->0];
                    time_diff_fits(e1.stat, s2[k].stat) && softirqs_diff_fits(
                        e1.softirqs,
                        s2[k].softirqs,
                    )
                },
    {
        assert(s2[i as int] == v2@[i as int]@);
        if last_of_name(v2, i) {
            match find_last(v1, &v2[i].name) {
                Some(j) => {
                    assert(s1[j as int] == v1@[j as int]@);
                    if !(time_diff_ok(&v1[j].stat, &v2[i].stat) && softirqs_diff_ok(
                        &v1[j].softirqs,
                        &v2[i].softirqs,
                    )) {
                        assert(last_index(s1, s2[i as int].name) is Some);
                        return false;
                    }
                },
                None => {},
            }
        }
    }
    true
}

/// `compare_cpu_infos`, or `None` when a difference it computes would leave
/// `i64`.
pub fn try_compare_cpu_infos(v1: Vec<CpuStat>, v2: Vec<CpuStat>) -> (r: Option<(Vec<CpuStat>, LinkedHashMap<String, &'static str>)>)
    ensures
        r is Some <==> samples_comparable(stats_view(v1@), stats_view(v2@)),
        match r {
            Some(x) => {
                &&& stats_view(x.0@).map_values(|d: CpuStatView| (d.name, d.stat, d.softirqs))
                    == diffs_upto(stats_view(v1@), stats_view(v2@), v2@.len() as int)
                &&& change_table_entries(x.1) == insert_all(
                    seq![],
                    changes_upto(stats_view(v2@), stats_view(v1@), v2@.len() as int, "removed"@)
                        + changes_upto(stats_view(v1@), stats_view(v2@), v1@.len() as int, "added"@),
                )
            },
            None => true,
        },
{
    if samples_fit(&v1, &v2) {
        Some(compare_cpu_infos(v1, v2))
    } else {
        None
    }
}

// ---------------------------------------------------------------- reading /proc/stat

/// The numbers among `ws`, in order: the words that do not read as an
/// `i64` are skipped.
pub open spec fn numbers_of(ws: Seq<Seq<char>>) -> Seq<i64>
    decreases ws.len(),
{
    if ws.len() == 0 {
        seq![]
    } else {
        let prev = numbers_of(ws.drop_last());
        match parse_i64_spec(ws.last()) {
            Some(v) => prev.push(v),
            None => prev,
        }
    }
}

/// The software-interrupt counts of CPU `name`; `None` when the table lacks
/// one of the ten interrupts for it.
pub open spec fn softirqs_for(t: Assoc<Assoc<u32>>, name: Seq<char>) -> Option<CpuSoftIrqs> {
    let c = |k: Seq<char>| count_of(t, name, k);
    if c("HI:"@) is Some && c("TIMER:"@) is Some && c("NET_TX:"@) is Some && c("NET_RX:"@) is Some
        && c("BLOCK:"@) is Some && c("IRQ_POLL:"@) is Some && c("TASKLET:"@) is Some && c(
        "SCHED:"@,
    ) is Some && c("HRTIMER:"@) is Some && c("RCU:"@) is Some {
        Some(
            CpuSoftIrqs {
                hi: c("HI:"@)->0 as i64,
                timer: c("TIMER:"@)->0 as i64,
                net_tx: c("NET_TX:"@)->0 as i64,
                net_rx: c("NET_RX:"@)->0 as i64,
                block: c("BLOCK:"@)->0 as i64,
                irq_poll: c("IRQ_POLL:"@)->0 as i64,
                tasklet: c("TASKLET:"@)->0 as i64,
                sched: c("SCHED:"@)->0 as i64,
                hrtimer: c("HRTIMER:"@)->0 as i64,
                rcu: c("RCU:"@)->0 as i64,
            },
        )
    } else {
        None
    }
}

/// A "cpu" line of `/proc/stat`: the name, then the times, of which the
/// first ten numbers count (user, nice, system, idle, iowait, irq, softirq,
/// steal, guest, guest_nice); `None` when fewer than ten numbers follow the
/// name or the table lacks a count for it.
pub open spec fn cpu_line(l: Seq<char>, t: Assoc<Assoc<u32>>) -> Option<CpuStatView> {
    let data = words(l);
    if data.len() == 0 {
        None
    } else {
        let name = data[0];
        let d = numbers_of(data.drop_first());
        if d.len() < 10 {
            None
        } else {
            match softirqs_for(t, name) {
                Some(softirqs) => Some(
                    CpuStatView {
                        name,
                        stat: CpuTime {
                            user: d[0],
                            nice: d[1],
                            system: d[2],
                            idle: d[3],
                            iowait: Some(d[4]),
                            irq: Some(d[5]),
                            softirq: Some(d[6]),
                            steal: Some(d[7]),
                            guest: Some(d[8]),
                            guest_nice: Some(d[9]),
                        },
                        softirqs,
                    },
                ),
                None => None,
            }
        }
    }
}

/// The number after the keyword of a line such as "ctxt 1234".
pub open spec fn counter_line(l: Seq<char>) -> Option<usize> {
    let data = words(l);
    if data.len() >= 2 {
        parse_usize_spec(data[1])
    } else {
        None
    }
}

/// What `/proc/stat` holds: the CPU lines, and the context switches,
/// processes created, processes running and processes blocked.
pub type StatSummary = (Seq<CpuStatView>, usize, usize, usize, usize);

/// The summary after the first `k` lines; the prefixes "cpu", "ctxt",
/// "processes", "procs_running", "procs_blocked" exclude each other, and a
/// later counter line replaces an earlier one; `None` where a line of one
/// of these kinds is refused.
pub open spec fn stat_upto(lines: Seq<Seq<char>>, t: Assoc<Assoc<u32>>, k: int) -> Option<StatSummary>
    decreases k,
{
    if k <= 0 {
        Some((seq![], 0, 0, 0, 0))
    } else {
        match stat_upto(lines, t, k - 1) {
            None => None,
            Some(st) => {
                let l = lines[k - 1];
                if starts_with(l, "cpu"@) {
                    match cpu_line(l, t) {
                        Some(c) => Some((st.0.push(c), st.1, st.2, st.3, st.4)),
                        None => None,
                    }
                } else if starts_with(l, "ctxt"@) {
                    match counter_line(l) {
                        Some(v) => Some((st.0, v, st.2, st.3, st.4)),
                        None => None,
                    }
                } else if starts_with(l, "processes"@) {
                    match counter_line(l) {
                        Some(v) => Some((st.0, st.1, v, st.3, st.4)),
                        None => None,
                    }
                } else if starts_with(l, "procs_running"@) {
                    match counter_line(l) {
                        Some(v) => Some((st.0, st.1, st.2, v, st.4)),
                        None => None,
                    }
                } else if starts_with(l, "procs_blocked"@) {
                    match counter_line(l) {
                        Some(v) => Some((st.0, st.1, st.2, st.3, v)),
                        None => None,
                    }
                } else {
                    Some(st)
                }
            },
        }
    }
}

proof fn lemma_stat_fails(lines: Seq<Seq<char>>, t: Assoc<Assoc<u32>>, j: int, n: int)
    requires
        0 <= j <= n,
        stat_upto(lines, t, j) is None,
    ensures
        stat_upto(lines, t, n) is None,
    decreases n - j,
{
    if j < n {
        lemma_stat_fails(lines, t, j, n - 1);
    }
}

/// The numbers among the words `ws` after the first.
fn numbers_after_first(ws: &Vec<Vec<char>>) -> (r: Vec<i64>)
    requires
        ws@.len() > 0,
    ensures
        r@ == numbers_of(views(ws@).drop_first()),
{
    let ghost rest = views(ws@).drop_first();
    let mut r: Vec<i64> = Vec::new();
    for i in 1..ws.len()
        invariant
            rest == views(ws@).drop_first(),
            r@ == numbers_of(rest.take(i - 1)),
    {
        assert(rest.take(i as int).drop_last() =~= rest.take(i - 1));
        assert(rest[i - 1] == ws@[i as int]@);
        match parse_i64(&ws[i]) {
            Some(v) => r.push(v),
            None => {},
        }
    }
    assert(rest.take(ws@.len() - 1) =~= rest);
    r
}

/// One interrupt count of a CPU, as `i64`.
fn count_i64(t: &SoftirqTable, name: &String, irq: &str) -> (r: Option<i64>)
    ensures
        r == (match count_of(t@, name@, irq@) {
            Some(x) => Some(x as i64),
            None => None,
        }),
{
    let k = string_of(&chars_of(irq));
    match softirq_count(t, name, &k) {
        Some(x) => Some(x as i64),
        None => None,
    }
}

/// The software-interrupt counts of CPU `name`.
fn softirqs_of_cpu(t: &SoftirqTable, name: &String) -> (r: Option<CpuSoftIrqs>)
    ensures
        r == softirqs_for(t@, name@),
{
    let hi = count_i64(t, name, "HI:");
    let timer = count_i64(t, name, "TIMER:");
    let net_tx = count_i64(t, name, "NET_TX:");
    let net_rx = count_i64(t, name, "NET_RX:");
    let block = count_i64(t, name, "BLOCK:");
    let irq_poll = count_i64(t, name, "IRQ_POLL:");
    let tasklet = count_i64(t, name, "TASKLET:");
    let sched = count_i64(t, name, "SCHED:");
    let hrtimer = count_i64(t, name, "HRTIMER:");
    let rcu = count_i64(t, name, "RCU:");
    match (hi, timer, net_tx, net_rx, block, irq_poll, tasklet, sched, hrtimer, rcu) {
        (
            Some(hi),
            Some(timer),
            Some(net_tx),
            Some(net_rx),
            Some(block),
            Some(irq_poll),
            Some(tasklet),
            Some(sched),
            Some(hrtimer),
            Some(rcu),
        ) => Some(
            CpuSoftIrqs {
                hi,
                timer,
                net_tx,
                net_rx,
                block,
                irq_poll,
                tasklet,
                sched,
                hrtimer,
                rcu,
            },
        ),
        _ => None,
    }
}

/// Reads a "cpu" line.
fn read_cpu_line(l: &Vec<char>, t: &SoftirqTable) -> (r: Option<CpuStat>)
    ensures
        match r {
            Some(c) => cpu_line(l@, t@) == Some(c@),
            None => cpu_line(l@, t@) is None,
        },
{
    let data = split_words(l);
    if data.len() == 0 {
        return None;
    }
    let d = numbers_after_first(&data);
    if d.len() < 10 {
        return None;
    }
    let name = string_of(&data[0]);
    match softirqs_of_cpu(t, &name) {
        Some(softirqs) => {
            let stat = CpuTime {
                user: d[0],
                nice: d[1],
                system: d[2],
                idle: d[3],
                iowait: Some(d[4]),
                irq: Some(d[5]),
                softirq: Some(d[6]),
                steal: Some(d[7]),
                guest: Some(d[8]),
                guest_nice: Some(d[9]),
            };
            Some(CpuStat { name, stat, softirqs })
        },
        None => None,
    }
}

/// Reads a counter line such as "ctxt 1234".
fn read_counter_line(l: &Vec<char>) -> (r: Option<usize>)
    ensures
        r == counter_line(l@),
{
    let data = split_words(l);
    if data.len() >= 2 {
        parse_usize(&data[1])
    } else {
        None
    }
}

/// Reads `/proc/stat` (given line by line) with the software-interrupt
/// counts, or `None` where `get_cpu_stats` would fail.
pub fn try_get_cpu_stats(lines: &Vec<String>, all_softirqs: &SoftirqTable) -> (r: Option<(Vec<CpuStat>, usize, usize, usize, usize)>)
    ensures
        match r {
            Some(x) => stat_upto(lines_view(lines@), all_softirqs@, lines@.len() as int) == Some(
                (stats_view(x.0@), x.1, x.2, x.3, x.4),
            ),
            None => stat_upto(lines_view(lines@), all_softirqs@, lines@.len() as int) is None,
        },
{
    let ghost lv = lines_view(lines@);
    let ghost t = all_softirqs@;
    let mut cpu_infos: Vec<CpuStat> = Vec::new();
    let mut ctxt: usize = 0;
    let mut processes: usize = 0;
    let mut procs_running: usize = 0;
    let mut procs_blocked: usize = 0;
    for k in 0..lines.len()
        invariant
            lv == lines_view(lines@),
            t == all_softirqs@,
            stat_upto(lv, t, k as int) == Some(
                (stats_view(cpu_infos@), ctxt, processes, procs_running, procs_blocked),
            ),
    {
        assert(lv[k as int] == lines@[k as int]@);
        let line = chars_of(lines[k].as_str());
        if starts_with_str(&line, "cpu") {
            match read_cpu_line(&line, all_softirqs) {
                Some(c) => {
                    let ghost before = cpu_infos@;
                    cpu_infos.push(c);
                    assert(stats_view(cpu_infos@) =~= stats_view(before).push(c@));
                },
                None => {
                    proof {
                        lemma_stat_fails(lv, t, k as int + 1, lv.len() as int);
                    }
                    return None;
                },
            }
        } else if starts_with_str(&line, "ctxt") {
            match read_counter_line(&line) {
                Some(v) => ctxt = v,
                None => {
                    proof {
                        lemma_stat_fails(lv, t, k as int + 1, lv.len() as int);
                    }
                    return None;
                },
            }
        } else if starts_with_str(&line, "processes") {
            match read_counter_line(&line) {
                Some(v) => processes = v,
                None => {
                    proof {
                        lemma_stat_fails(lv, t, k as int + 1, lv.len() as int);
                    }
                    return None;
                },
            }
        } else if starts_with_str(&line, "procs_running") {
            match read_counter_line(&line) {
                Some(v) => procs_running = v,
                None => {
                    proof {
                        lemma_stat_fails(lv, t, k as int + 1, lv.len() as int);
                    }
                    return None;
                },
            }
        } else if starts_with_str(&line, "procs_blocked") {
            match read_counter_line(&line) {
                Some(v) => procs_blocked = v,
                None => {
                    proof {
                        lemma_stat_fails(lv, t, k as int + 1, lv.len() as int);
                    }
                    return None;
                },
            }
        }
    }
    Some((cpu_infos, ctxt, processes, procs_running, procs_blocked))
}

/// Reads `/proc/stat`, given line by line, with the software-interrupt
/// counts of `/proc/softirqs`: the CPU lines in order, then the context
/// switches, processes created, processes running and processes blocked.
pub fn get_cpu_stats(lines: &Vec<String>, all_softirqs: &SoftirqTable) -> (r: (Vec<CpuStat>, usize, usize, usize, usize))
    requires
        stat_upto(lines_view(lines@), all_softirqs@, lines@.len() as int) is Some,
    ensures
        stat_upto(lines_view(lines@), all_softirqs@, lines@.len() as int) == Some(
            (stats_view(r.0@), r.1, r.2, r.3, r.4),
        ),
{
    match try_get_cpu_stats(lines, all_softirqs) {
        Some(x) => x,
        None => (Vec::new(), 0, 0, 0, 0),
    }
}

/// The sum of `vals` from left to right; `None` when a running sum leaves
/// `i64`.
pub open spec fn checked_sum(vals: Seq<i64>) -> Option<i64>
    decreases vals.len(),
{
    if vals.len() == 0 {
        Some(0)
    } else {
        match checked_sum(vals.drop_last()) {
            Some(s) => if i64::MIN <= s + vals.last() <= i64::MAX {
                Some((s + vals.last()) as i64)
            } else {
                None
            },
            None => None,
        }
    }
}

/// The value of an optional time, 0 when absent.
pub open spec fn or_zero(o: Option<i64>) -> i64 {
    match o {
        Some(v) => v,
        None => 0,
    }
}

/// The times of all states, in the order they are summed.
pub open spec fn time_terms(t: CpuTime) -> Seq<i64> {
    seq![
        t.user,
        t.nice,
        t.system,
        t.idle,
        or_zero(t.iowait),
        or_zero(t.irq),
        or_zero(t.softirq),
        or_zero(t.steal),
        or_zero(t.guest),
        or_zero(t.guest_nice),
    ]
}

/// The total time of all states (absent ones counting 0), the base of the
/// percentages; `None` when the sum overflows `i64` on the way.
pub fn cpu_time_total(cpu_time: &CpuTime) -> (r: Option<i64>)
    ensures
        r == checked_sum(time_terms(*cpu_time)),
{
    let vals: Vec<i64> = vec![
        cpu_time.user,
        cpu_time.nice,
        cpu_time.system,
        cpu_time.idle,
        match cpu_time.iowait {
            Some(v) => v,
            None => 0,
        },
        match cpu_time.irq {
            Some(v) => v,
            None => 0,
        },
        match cpu_time.softirq {
            Some(v) => v,
            None => 0,
        },
        match cpu_time.steal {
            Some(v) => v,
            None => 0,
        },
        match cpu_time.guest {
            Some(v) => v,
            None => 0,
        },
        match cpu_time.guest_nice {
            Some(v) => v,
            None => 0,
        },
    ];
    let ghost terms = time_terms(*cpu_time);
    assert(vals@ =~= terms);
    let mut sum: i64 = 0;
    for i in 0..vals.len()
        invariant
            vals@ == terms,
            terms == time_terms(*cpu_time),
            checked_sum(terms.take(i as int)) == Some(sum),
    {
        assert(terms.take(i as int + 1).drop_last() =~= terms.take(i as int));
        match sum.checked_add(vals[i]) {
            Some(s) => sum = s,
            None => {
                proof {
                    lemma_checked_sum_fails(terms, i as int + 1, terms.len() as int);
                    assert(terms.take(terms.len() as int) =~= terms);
                }
                return None;
            },
        }
    }
    assert(terms.take(vals@.len() as int) =~= terms);
    Some(sum)
}

proof fn lemma_checked_sum_fails(vals: Seq<i64>, j: int, n: int)
    requires
        0 <= j <= n <= vals.len(),
        checked_sum(vals.take(j)) is None,
    ensures
        checked_sum(vals.take(n)) is None,
    decreases n - j,
{
    if j < n {
        lemma_checked_sum_fails(vals, j, n - 1);
        assert(vals.take(n).drop_last() =~= vals.take(n - 1));
    }
}

} // verus!

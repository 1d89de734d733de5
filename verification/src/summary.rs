//! The tables that the tool prints: the system and process summaries, and
//! the software-interrupt rates per CPU.
use linked_hash_map::LinkedHashMap;
use vstd::prelude::*;

use crate::history::trunc_div;
use crate::linked::{insert_entry, new_text_table, text_table_entries, text_table_insert};
use crate::report::table_view;
use crate::stat::{stats_view, CpuStat, CpuStatView};
use crate::text::{
    chars_eq_str, chars_of, int_text, push_str, i64_to_string, string_of,
    usize_to_string,
};
use crate::topology::CpuGlobalInfo;

verus! {

/// A string holding `s`.
fn text(s: &str) -> (r: String)
    ensures
        r@ == s@,
{
    string_of(&chars_of(s))
}

/// The process summary: context switches and processes created per second
/// since the previous run, processes running and blocked.
pub open spec fn process_table_spec(rate_ctxt: usize, rate_processes: usize, running: usize, blocked: usize) -> Seq<(Seq<char>, Seq<char>)> {
    let e0 = insert_entry(seq![], "Context switch/s"@, int_text(rate_ctxt as int));
    let e1 = insert_entry(e0, "Processes created/s"@, int_text(rate_processes as int));
    let e2 = insert_entry(e1, "Processes running"@, int_text(running as int));
    insert_entry(e2, "Processes bloacked/s"@, int_text(blocked as int))
}

/// The table of the process summary.
pub fn process_infos_table(rate_ctxt: usize, rate_processes: usize, procs_running: usize, procs_blocked: usize) -> (t: LinkedHashMap<String, String>)
    ensures
        text_table_entries(t) == process_table_spec(rate_ctxt, rate_processes, procs_running, procs_blocked),
{
    let mut t = new_text_table();
    text_table_insert(&mut t, text("Context switch/s"), usize_to_string(rate_ctxt));
    text_table_insert(&mut t, text("Processes created/s"), usize_to_string(rate_processes));
    text_table_insert(&mut t, text("Processes running"), usize_to_string(procs_running));
    text_table_insert(&mut t, text("Processes bloacked/s"), usize_to_string(procs_blocked));
    t
}

/// The system summary: sockets, CPUs online with their physical and logical
/// cores, and the temperature text.
pub open spec fn system_table_spec(sockets: i64, online: usize, physical: usize, logical: usize, temperature: Seq<char>) -> Seq<(Seq<char>, Seq<char>)> {
    let cpus = int_text(online as int) + " ("@ + int_text(physical as int) + " Core / "@ + int_text(
        logical as int,
    ) + " Thread)"@;
    let e0 = insert_entry(seq![], "Socket(s)"@, int_text(sockets as int));
    let e1 = insert_entry(e0, "CPU(s)"@, cpus);
    insert_entry(e1, "Temp."@, temperature)
}

/// The table of the system summary.
pub fn system_infos_table(info: &CpuGlobalInfo, temperature: String) -> (t: LinkedHashMap<String, String>)
    ensures
        text_table_entries(t) == system_table_spec(
            info.socket_nbr_detected,
            info.cpu_nbr_online,
            info.cpu_nbr_physical,
            info.cpu_nbr_logical,
            temperature@,
        ),
{
    let mut t = new_text_table();
    text_table_insert(&mut t, text("Socket(s)"), i64_to_string(info.socket_nbr_detected));
    let mut cpus = usize_to_string(info.cpu_nbr_online);
    push_str(&mut cpus, " (");
    push_str(&mut cpus, usize_to_string(info.cpu_nbr_physical).as_str());
    push_str(&mut cpus, " Core / ");
    push_str(&mut cpus, usize_to_string(info.cpu_nbr_logical).as_str());
    push_str(&mut cpus, " Thread)");
    text_table_insert(&mut t, text("CPU(s)"), cpus);
    text_table_insert(&mut t, text("Temp."), temperature);
    t
}

/// The name shown for a CPU: "all" for the totals line "cpu".
pub open spec fn shown_name(name: Seq<char>) -> Seq<char> {
    if name == "cpu"@ {
        "all"@
    } else {
        name
    }
}

/// Whether `x / d` can be computed.
pub open spec fn div_ok(x: i64, d: i64) -> bool {
    d != 0 && !(x == i64::MIN && d == -1)
}

/// `x / d` as `Display` writes it.
pub open spec fn rate_text(x: i64, d: i64) -> Seq<char> {
    int_text(trunc_div(x as int, d as int))
}

/// Every rate of the line of `s` can be computed.
pub open spec fn rates_ok(s: CpuStatView, d: i64) -> bool {
    let q = s.softirqs;
    div_ok(q.hi, d) && div_ok(q.timer, d) && div_ok(q.net_tx, d) && div_ok(q.net_rx, d) && div_ok(
        q.block,
        d,
    ) && div_ok(q.irq_poll, d) && div_ok(q.tasklet, d) && div_ok(q.sched, d) && div_ok(q.hrtimer, d)
        && div_ok(q.rcu, d)
}

/// The header of the software-interrupt table.
pub open spec fn softirqs_header() -> Seq<Seq<char>> {
    seq![
        "CPU"@,
        "HI/s"@,
        "TIMER/s"@,
        "NET_TX/s"@,
        "NET_RX/s"@,
        "BLOCK/s"@,
        "IRQ_POLL/s"@,
        "TASKLET/s"@,
        "SCHED/s"@,
        "HRTIMER/s"@,
        "RCU/s"@,
    ]
}

/// A CPU's line of the software-interrupt table: its name, then each count
/// divided by the seconds elapsed.
pub open spec fn softirqs_line(s: CpuStatView, d: i64) -> Seq<Seq<char>> {
    let q = s.softirqs;
    seq![
        shown_name(s.name),
        rate_text(q.hi, d),
        rate_text(q.timer, d),
        rate_text(q.net_tx, d),
        rate_text(q.net_rx, d),
        rate_text(q.block, d),
        rate_text(q.irq_poll, d),
        rate_text(q.tasklet, d),
        rate_text(q.sched, d),
        rate_text(q.hrtimer, d),
        rate_text(q.rcu, d),
    ]
}

/// The software-interrupt table: the header, then (unless this is the first
/// run) one line per CPU.
pub open spec fn softirqs_table_spec(stats: Seq<CpuStatView>, d: i64, first_start: bool) -> Seq<Seq<Seq<char>>> {
    if first_start {
        seq![softirqs_header()]
    } else {
        seq![softirqs_header()] + stats.map_values(|s: CpuStatView| softirqs_line(s, d))
    }
}

proof fn lemma_div_bounds(a: int, b: int)
    requires
        a >= 0,
        b >= 1,
    ensures
        0 <= a / b <= a,
        b >= 2 ==> a / b <= a / 2,
{
    assert(0 <= a / b <= a) by (nonlinear_arith)
        requires
            a >= 0,
            b >= 1,
    ;
    assert(b >= 2 ==> a / b <= a / 2) by (nonlinear_arith)
        requires
            a >= 0,
            b >= 1,
    ;
}

proof fn lemma_trunc_div_fits(x: i64, d: i64)
    requires
        div_ok(x, d),
    ensures
        i64::MIN <= trunc_div(x as int, d as int) <= i64::MAX,
{
    let xi = x as int;
    let di = d as int;
    if xi > 0 && di > 0 {
        lemma_div_bounds(xi, di);
    } else if xi < 0 && di < 0 {
        lemma_div_bounds(-xi, -di);
    } else if xi < 0 && di > 0 {
        lemma_div_bounds(-xi, di);
    } else if xi > 0 && di < 0 {
        lemma_div_bounds(xi, -di);
    }
}

/// `x / d` as `Display` writes it.
fn rate_string(x: i64, d: i64) -> (r: String)
    requires
        div_ok(x, d),
    ensures
        r@ == rate_text(x, d),
{
    proof {
        lemma_trunc_div_fits(x, d);
    }
    match x.checked_div(d) {
        Some(q) => i64_to_string(q),
        None => String::new(),
    }
}

/// The software-interrupt table of the differences `diff_vec` over
/// `lastchecktime` seconds: the header, then (unless this is the first run)
/// one line per CPU.
pub fn softirqs_table(diff_vec: &Vec<CpuStat>, lastchecktime: i64, first_start: bool) -> (t: Vec<Vec<String>>)
    requires
        !first_start ==> forall|i: int|
            0 <= i < diff_vec@.len() ==> rates_ok(#[trigger] diff_vec@[i]@, lastchecktime),
    ensures
        table_view(t@) == softirqs_table_spec(stats_view(diff_vec@), lastchecktime, first_start),
{
    let header: Vec<String> = vec![
        text("CPU"),
        text("HI/s"),
        text("TIMER/s"),
        text("NET_TX/s"),
        text("NET_RX/s"),
        text("BLOCK/s"),
        text("IRQ_POLL/s"),
        text("TASKLET/s"),
        text("SCHED/s"),
        text("HRTIMER/s"),
        text("RCU/s"),
    ];
    assert(header@.map_values(|c: String| c@) =~= softirqs_header());
    let mut t: Vec<Vec<String>> = Vec::new();
    t.push(header);
    let ghost sv = stats_view(diff_vec@);
    if !first_start {
        for i in 0..diff_vec.len()
            invariant
                !first_start,
                sv == stats_view(diff_vec@),
                forall|i: int|
                    0 <= i < diff_vec@.len() ==> rates_ok(#[trigger] diff_vec@[i]@, lastchecktime),
                table_view(t@) == seq![softirqs_header()] + sv.take(i as int).map_values(
                    |s: CpuStatView| softirqs_line(s, lastchecktime),
                ),
        {
            let s = &diff_vec[i];
            assert(sv[i as int] == s@);
            assert(rates_ok(diff_vec@[i as int]@, lastchecktime));
            let name = if chars_eq_str(&chars_of(s.name.as_str()), "cpu") {
                text("all")
            } else {
                s.name.clone()
            };
            let q = &s.softirqs;
            let line: Vec<String> = vec![
                name,
                rate_string(q.hi, lastchecktime),
                rate_string(q.timer, lastchecktime),
                rate_string(q.net_tx, lastchecktime),
                rate_string(q.net_rx, lastchecktime),
                rate_string(q.block, lastchecktime),
                rate_string(q.irq_poll, lastchecktime),
                rate_string(q.tasklet, lastchecktime),
                rate_string(q.sched, lastchecktime),
                rate_string(q.hrtimer, lastchecktime),
                rate_string(q.rcu, lastchecktime),
            ];
            assert(line@.map_values(|c: String| c@) =~= softirqs_line(s@, lastchecktime));
            let ghost before = t@;
            t.push(line);
            assert(table_view(t@) =~= table_view(before).push(softirqs_line(s@, lastchecktime)));
            assert(sv.take(i as int + 1) =~= sv.take(i as int).push(s@));
            assert(seq![softirqs_header()] + sv.take(i as int + 1).map_values(
                |s: CpuStatView| softirqs_line(s, lastchecktime),
            ) =~= (seq![softirqs_header()] + sv.take(i as int).map_values(
                |s: CpuStatView| softirqs_line(s, lastchecktime),
            )).push(softirqs_line(s@, lastchecktime)));
        }
        assert(sv.take(diff_vec@.len() as int) =~= sv);
    } else {
        assert(table_view(t@) =~= seq![softirqs_header()]);
    }
    t
}

} // verus!

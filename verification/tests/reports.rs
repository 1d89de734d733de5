use check_sysstat_cpu::report::{
    change_alerts, interval_alert, output_alert, output_horizontal_table, output_vertical_table,
};
use check_sysstat_cpu::summary::{process_infos_table, softirqs_table, system_infos_table};
use check_sysstat_cpu::stat::{CpuSoftIrqs, CpuStat, CpuTime};
use check_sysstat_cpu::topology::CpuGlobalInfo;
use linked_hash_map::LinkedHashMap;
use std::collections::HashMap;

fn row(cells: &[&str]) -> Vec<String> {
    cells.iter().map(|s| s.to_string()).collect()
}

#[test]
fn alerts_in_each_mode() {
    assert_eq!(output_alert("cli", 0, "fine".to_string()), "[OK] fine");
    assert_eq!(output_alert("cli", 1, "m".to_string()), "[WARNING] m");
    assert_eq!(output_alert("cli", 2, "m".to_string()), "[CRITICAL] m");
    assert_eq!(output_alert("cli", 3, "m".to_string()), "[UNKNOWN] m");
    assert_eq!(output_alert("cli", 9, "m".to_string()), "m");
    assert_eq!(
        output_alert("check", 1, "m".to_string()),
        "<span style='color:#e48c19;font-weight: bold;'>[WARNING]</span> m"
    );
    assert_eq!(
        output_alert("check", 3, "cpu4 : added".to_string()),
        "<span style='color:#e41919;font-weight: bold;'>[UNKNOWN]</span> cpu4 : added"
    );
    assert_eq!(output_alert("json", 2, "m".to_string()), "");
}

#[test]
fn horizontal_table_cli_layout() {
    let out = output_horizontal_table("cli", false, vec![row(&["CPU", "HI/s"]), row(&["all", "5"])]);
    let rule = "-".repeat(22);
    let expected = format!("\n{rule}\nCPU       | HI/s      \n{rule}\nall       | 5         \n");
    assert_eq!(out, expected);
}

#[test]
fn horizontal_table_cli_lines_align() {
    let out = output_horizontal_table(
        "cli",
        false,
        vec![row(&["CPU", "%usr", "%idle"]), row(&["cpu0", "1.5", "97.25"]), row(&["cpu10", "0", "100"])],
    );
    let lines: Vec<&str> = out.lines().filter(|l| !l.is_empty()).collect();
    for l in &lines {
        assert_eq!(l.len(), 12 * 3 - 2);
    }
}

#[test]
fn horizontal_table_check_layout() {
    let out = output_horizontal_table("check", true, vec![row(&["CPU"]), row(&["all"])]);
    assert_eq!(
        out,
        "<br><table class='check-table'><tr><th class='check-table-th'>CPU</th><tr><tr><td class='check-table-td'>all</th><tr></table>"
    );
    assert_eq!(output_horizontal_table("json", false, vec![row(&["CPU"])]), "");
}

fn table(pairs: &[(&str, &str)]) -> LinkedHashMap<String, String> {
    let mut t = LinkedHashMap::new();
    for (k, v) in pairs {
        t.insert(k.to_string(), v.to_string());
    }
    t
}

#[test]
fn vertical_table_cli_layout() {
    let out = output_vertical_table("cli", true, table(&[("Socket(s)", "1"), ("CPU(s)", "4 (4 Core / 8 Thread)")]));
    let rule = "-".repeat(9 + 21 + 4);
    let expected = format!(
        " \n{rule}\nSocket(s) | 1                    \nCPU(s)    | 4 (4 Core / 8 Thread)\n{rule}\n"
    );
    assert_eq!(out, expected);
    let plain = output_vertical_table("cli", false, table(&[("a", "bb")]));
    assert_eq!(plain, " \na | bb\n");
}

#[test]
fn vertical_table_pads_by_characters() {
    // the width is counted in bytes, the padding in characters
    let out = output_vertical_table("cli", false, table(&[("\u{e9}", "x"), ("ab", "y")]));
    assert_eq!(out, format!(" \n{0: <2} | x\n{1: <2} | y\n", "\u{e9}", "ab"));
}

#[test]
fn vertical_table_check_layout() {
    let out = output_vertical_table("check", false, table(&[("k", "v")]));
    assert_eq!(
        out,
        "<br><table class='check-table'><tr><th class='check-table-th'>k</th><td class='check-table-td'>v</td></tr></table>"
    );
    assert_eq!(output_vertical_table("json", false, table(&[("k", "v")])), "");
}

#[test]
fn a_later_insert_moves_the_entry_last() {
    let mut t = table(&[("a", "1"), ("b", "2")]);
    t.insert("a".to_string(), "3".to_string());
    let out = output_vertical_table("cli", false, t);
    assert_eq!(out, " \nb | 2\na | 3\n");
}

#[test]
fn process_and_system_tables() {
    let t = process_infos_table(12, 3, 2, 0);
    let entries: Vec<(String, String)> = t.iter().map(|(k, v)| (k.clone(), v.clone())).collect();
    assert_eq!(
        entries,
        vec![
            ("Context switch/s".to_string(), "12".to_string()),
            ("Processes created/s".to_string(), "3".to_string()),
            ("Processes running".to_string(), "2".to_string()),
            ("Processes bloacked/s".to_string(), "0".to_string()),
        ]
    );
    let info = CpuGlobalInfo {
        socket_nbr_detected: 1,
        cpu_nbr_detected: 4,
        cpu_nbr_online: 4,
        cpu_nbr_offline: 0,
        cpu_nbr_physical: 2,
        cpu_nbr_logical: 2,
        socket: HashMap::new(),
        cpu: HashMap::new(),
    };
    let t = system_infos_table(&info, "N/A".to_string());
    let entries: Vec<(String, String)> = t.iter().map(|(k, v)| (k.clone(), v.clone())).collect();
    assert_eq!(
        entries,
        vec![
            ("Socket(s)".to_string(), "1".to_string()),
            ("CPU(s)".to_string(), "4 (2 Core / 2 Thread)".to_string()),
            ("Temp.".to_string(), "N/A".to_string()),
        ]
    );
}

fn stat(name: &str, hi: i64, timer: i64) -> CpuStat {
    CpuStat {
        name: name.to_string(),
        stat: CpuTime {
            user: 0,
            nice: 0,
            system: 0,
            idle: 0,
            iowait: None,
            irq: None,
            softirq: None,
            steal: None,
            guest: None,
            guest_nice: None,
        },
        softirqs: CpuSoftIrqs {
            hi,
            timer,
            net_tx: 0,
            net_rx: 0,
            block: 0,
            irq_poll: 0,
            tasklet: 0,
            sched: 0,
            hrtimer: 0,
            rcu: -7,
        },
    }
}

#[test]
fn softirq_rates_per_second() {
    let diff = vec![stat("cpu", 10, 7), stat("cpu0", 4, 0)];
    let t = softirqs_table(&diff, 3, false);
    assert_eq!(t.len(), 3);
    assert_eq!(t[0][0], "CPU");
    assert_eq!(t[0][10], "RCU/s");
    assert_eq!(t[1], row(&["all", "3", "2", "0", "0", "0", "0", "0", "0", "0", "-2"]));
    assert_eq!(t[2][0], "cpu0");
    assert_eq!(t[2][1], "1");
    let first = softirqs_table(&diff, 0, true);
    assert_eq!(first.len(), 1);
}

#[test]
fn interval_alert_under_two_seconds() {
    assert_eq!(
        interval_alert("cli", 1),
        Some("[CRITICAL] Interval between two executions is too short, the information may be erroneous. It is advisable to wait at least 2 seconds before a second execution. Last interval (1s)".to_string())
    );
    assert!(interval_alert("check", 0).unwrap().starts_with("<span style='color:#e41919;font-weight: bold;'>[CRITICAL]</span> Interval"));
    assert!(interval_alert("check", 0).unwrap().ends_with("Last interval (0s)"));
    assert_eq!(interval_alert("cli", 2), None);
    assert_eq!(interval_alert("json", 1), Some(String::new()));
}

#[test]
fn alerts_for_added_and_removed_cpus() {
    let mut changes: LinkedHashMap<String, &'static str> = LinkedHashMap::new();
    changes.insert("cpu3".to_string(), "removed");
    changes.insert("cpu".to_string(), "added");
    changes.insert("cpu4".to_string(), "added");
    assert_eq!(change_alerts("cli", &changes), "[UNKNOWN] cpu3 : removed[UNKNOWN] cpu4 : added");
    assert_eq!(change_alerts("json", &changes), "");
    assert_eq!(change_alerts("cli", &LinkedHashMap::new()), "");
}

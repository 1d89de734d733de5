use check_sysstat_cpu::history::{read_last_run, stats_file_text};

fn lines(text: &str) -> Vec<String> {
    text.lines().map(|l| l.to_string()).collect()
}

#[test]
fn stats_file_layout() {
    let text = stats_file_text(1700000000, "[{\"name\":\"cpu\"}]", 5000, 321);
    assert_eq!(text, "cputime 1700000000\ncpujson [{\"name\":\"cpu\"}]\nctxt 5000\nprocesses 321\n");
    assert_eq!(stats_file_text(-5, "[]", 0, 0), "cputime -5\ncpujson []\nctxt 0\nprocesses 0\n");
}

#[test]
fn written_file_reads_back() {
    let text = stats_file_text(1000, "[1,2]", 400, 50);
    let r = read_last_run(&lines(&text), 1010, 500, 70).unwrap();
    assert_eq!(r.lastchecktime, 10);
    assert_eq!(r.cpujson, vec!["[1,2]".to_string()]);
    assert_eq!(r.rate_ctxt, 10);
    assert_eq!(r.rate_processes, 2);
}

#[test]
fn interval_is_at_least_one_second() {
    let r = read_last_run(&lines("cputime 2000"), 2000, 0, 0).unwrap();
    assert_eq!(r.lastchecktime, 1);
    let r = read_last_run(&lines("cputime 3000"), 2000, 0, 0).unwrap();
    assert_eq!(r.lastchecktime, 1);
}

#[test]
fn rates_round_toward_zero() {
    let r = read_last_run(&lines("cputime 0\nctxt 10\nprocesses 0"), 4, 17, 3).unwrap();
    assert_eq!(r.rate_ctxt, 1);
    assert_eq!(r.rate_processes, 0);
    // a count that went down wraps as the cast of a negative rate does
    let r = read_last_run(&lines("cputime 0\nctxt 10"), 1, 9, 0).unwrap();
    assert_eq!(r.rate_ctxt, (-1i64) as usize);
}

#[test]
fn empty_file_gives_nothing() {
    let r = read_last_run(&Vec::new(), 5, 1, 1).unwrap();
    assert_eq!(r.lastchecktime, 0);
    assert!(r.cpujson.is_empty());
    assert_eq!((r.rate_ctxt, r.rate_processes), (0, 0));
}

#[test]
fn refused_files() {
    // a count before any time: no interval to divide by
    assert!(read_last_run(&lines("ctxt 10\ncputime 0"), 5, 20, 0).is_none());
    assert!(read_last_run(&lines("cputime soon"), 5, 0, 0).is_none());
    assert!(read_last_run(&lines("cputime"), 5, 0, 0).is_none());
    assert!(read_last_run(&lines("cpujson"), 5, 0, 0).is_none());
    assert!(read_last_run(&lines("cputime -9223372036854775808"), 5, 0, 0).is_none());
    // the growth of the count leaves i64
    assert!(read_last_run(&lines("cputime 0\nctxt -1"), 5, i64::MAX as usize, 0).is_none());
}

#[test]
fn later_samples_are_kept_in_order() {
    let r = read_last_run(&lines("cpujson [1]\nother line\ncpujson [2]"), 0, 0, 0).unwrap();
    assert_eq!(r.cpujson, vec!["[1]".to_string(), "[2]".to_string()]);
}

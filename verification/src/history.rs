//! The file that keeps the previous run's figures, so that this run can
//! report rates since then. It holds four lines:
//! `cputime <unix time>`, `cpujson <CPU samples as JSON>`,
//! `ctxt <context switches>` and `processes <processes created>`.
use vstd::prelude::*;

use crate::softirqs::lines_view;
use crate::text::{
    chars_of, int_text, parse_i64, parse_i64_spec, push_decimal, push_int, push_str,
    split_words, starts_with, starts_with_str, string_of, views_of_strings, words,
};

verus! {

/// The text of the file for this run's figures.
pub open spec fn stats_file_spec(timestamp: i64, cpujson: Seq<char>, ctxt: usize, processes: usize) -> Seq<char> {
    "cputime "@ + int_text(timestamp as int) + "\n"@ + "cpujson "@ + cpujson + "\n"@ + "ctxt "@
        + int_text(ctxt as int) + "\n"@ + "processes "@ + int_text(processes as int) + "\n"@
}

/// The text of the file for this run's figures: the time, the CPU samples
/// (as JSON text), and the counts of context switches and of processes
/// created.
pub fn stats_file_text(timestamp: i64, cpujson: &str, ctxt: usize, processes: usize) -> (text: String)
    ensures
        text@ == stats_file_spec(timestamp, cpujson@, ctxt, processes),
{
    let mut s = String::new();
    push_str(&mut s, "cputime ");
    push_int(&mut s, timestamp);
    push_str(&mut s, "\n");
    push_str(&mut s, "cpujson ");
    push_str(&mut s, cpujson);
    push_str(&mut s, "\n");
    push_str(&mut s, "ctxt ");
    push_decimal(&mut s, ctxt as u64);
    push_str(&mut s, "\n");
    push_str(&mut s, "processes ");
    push_decimal(&mut s, processes as u64);
    push_str(&mut s, "\n");
    assert(int_text(ctxt as int) == crate::text::decimal(ctxt as nat));
    assert(int_text(processes as int) == crate::text::decimal(processes as nat));
    assert(s@ =~= stats_file_spec(timestamp, cpujson@, ctxt, processes));
    s
}

/// Integer division rounding toward zero, as Rust's `/` on integers.
pub open spec fn trunc_div(x: int, d: int) -> int {
    if x == 0 {
        0
    } else if x > 0 && d > 0 {
        x / d
    } else if x < 0 && d < 0 {
        (-x) / (-d)
    } else if x < 0 {
        -((-x) / d)
    } else {
        -(x / (-d))
    }
}

/// What the previous run's file gives this run.
pub struct LastRun {
    /// Seconds since the previous run, at least 1 (0 when the file has no
    /// time).
    pub lastchecktime: i64,
    /// The texts of the CPU samples, in the order of the file.
    pub cpujson: Vec<String>,
    /// Context switches per second since the previous run.
    pub rate_ctxt: usize,
    /// Processes created per second since the previous run.
    pub rate_processes: usize,
}

/// The figures read so far: seconds since the previous run, the sample
/// texts, and the two rates.
pub type LastRunView = (i64, Seq<Seq<char>>, usize, usize);

/// The rate of a count since the previous run: its growth divided by the
/// seconds elapsed, computed in `i64` and read as `usize`; `None` when the
/// growth leaves `i64` or no time is known yet.
pub open spec fn rate(now: usize, before: i64, elapsed: i64) -> Option<usize> {
    let growth = (now as i64) - before;
    if !(i64::MIN <= growth <= i64::MAX) || elapsed == 0 {
        None
    } else {
        let q = trunc_div(growth, elapsed as int);
        if i64::MIN <= q <= i64::MAX {
            Some((q as i64) as usize)
        } else {
            None
        }
    }
}

/// The number after the keyword of a line such as "ctxt 1234", as `i64`.
pub open spec fn field_i64(l: Seq<char>) -> Option<i64> {
    let data = words(l);
    if data.len() >= 2 {
        parse_i64_spec(data[1])
    } else {
        None
    }
}

/// The figures after the first `k` lines; `None` where a line is refused.
pub open spec fn last_run_upto(lines: Seq<Seq<char>>, timestamp: i64, ctxt: usize, processes: usize, k: int) -> Option<LastRunView>
    decreases k,
{
    if k <= 0 {
        Some((0, seq![], 0, 0))
    } else {
        match last_run_upto(lines, timestamp, ctxt, processes, k - 1) {
            None => None,
            Some(st) => {
                let l = lines[k - 1];
                if starts_with(l, "cputime"@) {
                    match field_i64(l) {
                        Some(date) => {
                            let d = timestamp - date;
                            if i64::MIN <= d <= i64::MAX {
                                Some((if d < 1 { 1 } else { d as i64 }, st.1, st.2, st.3))
                            } else {
                                None
                            }
                        },
                        None => None,
                    }
                } else if starts_with(l, "cpujson"@) {
                    let data = words(l);
                    if data.len() >= 2 {
                        Some((st.0, st.1.push(data[1]), st.2, st.3))
                    } else {
                        None
                    }
                } else if starts_with(l, "ctxt"@) {
                    match field_i64(l) {
                        Some(v) => match rate(ctxt, v, st.0) {
                            Some(r) => Some((st.0, st.1, r, st.3)),
                            None => None,
                        },
                        None => None,
                    }
                } else if starts_with(l, "processes"@) {
                    match field_i64(l) {
                        Some(v) => match rate(processes, v, st.0) {
                            Some(r) => Some((st.0, st.1, st.2, r)),
                            None => None,
                        },
                        None => None,
                    }
                } else {
                    Some(st)
                }
            },
        }
    }
}

proof fn lemma_last_run_fails(lines: Seq<Seq<char>>, timestamp: i64, ctxt: usize, processes: usize, j: int, n: int)
    requires
        0 <= j <= n,
        last_run_upto(lines, timestamp, ctxt, processes, j) is None,
    ensures
        last_run_upto(lines, timestamp, ctxt, processes, n) is None,
    decreases n - j,
{
    if j < n {
        lemma_last_run_fails(lines, timestamp, ctxt, processes, j, n - 1);
    }
}

/// The number after the keyword of a line, as `i64`.
fn read_field_i64(l: &Vec<char>) -> (r: Option<i64>)
    ensures
        r == field_i64(l@),
{
    let data = split_words(l);
    if data.len() >= 2 {
        parse_i64(&data[1])
    } else {
        None
    }
}

/// The rate of a count since the previous run.
fn rate_of(now: usize, before: i64, elapsed: i64) -> (r: Option<usize>)
    ensures
        r == rate(now, before, elapsed),
{
    let n: i64 = #[verifier::truncate] (now as i64);
    let growth = match n.checked_sub(before) {
        Some(g) => g,
        None => {
            return None;
        },
    };
    match growth.checked_div(elapsed) {
        Some(q) => Some(#[verifier::truncate] (q as usize)),
        None => None,
    }
}

/// Reads the previous run's file (given line by line) at time `timestamp`,
/// with this run's counts of context switches and processes created; or
/// `None` where the file is refused (a number that does not read as `i64`,
/// a line without its value, a count whose rate cannot be computed).
pub fn read_last_run(lines: &Vec<String>, timestamp: i64, ctxt: usize, processes: usize) -> (r: Option<LastRun>)
    ensures
        match r {
            Some(x) => last_run_upto(lines_view(lines@), timestamp, ctxt, processes, lines@.len() as int)
                == Some((x.lastchecktime, views_of_strings(x.cpujson@), x.rate_ctxt, x.rate_processes)),
            None => last_run_upto(lines_view(lines@), timestamp, ctxt, processes, lines@.len() as int) is None,
        },
{
    let ghost lv = lines_view(lines@);
    let mut lastchecktime: i64 = 0;
    let mut cpujson: Vec<String> = Vec::new();
    let mut rate_ctxt: usize = 0;
    let mut rate_processes: usize = 0;
    for k in 0..lines.len()
        invariant
            lv == lines_view(lines@),
            last_run_upto(lv, timestamp, ctxt, processes, k as int) == Some(
                (lastchecktime, views_of_strings(cpujson@), rate_ctxt, rate_processes),
            ),
    {
        assert(lv[k as int] == lines@[k as int]@);
        let line = chars_of(lines[k].as_str());
        if starts_with_str(&line, "cputime") {
            match read_field_i64(&line) {
                Some(date) => {
                    match timestamp.checked_sub(date) {
                        Some(d) => {
                            lastchecktime = if d < 1 {
                                1
                            } else {
                                d
                            };
                        },
                        None => {
                            proof {
                                lemma_last_run_fails(lv, timestamp, ctxt, processes, k as int + 1, lv.len() as int);
                            }
                            return None;
                        },
                    }
                },
                None => {
                    proof {
                        lemma_last_run_fails(lv, timestamp, ctxt, processes, k as int + 1, lv.len() as int);
                    }
                    return None;
                },
            }
        } else if starts_with_str(&line, "cpujson") {
            let data = split_words(&line);
            if data.len() >= 2 {
                let ghost before = cpujson@;
                let j = string_of(&data[1]);
                cpujson.push(j);
                assert(views_of_strings(cpujson@) =~= views_of_strings(before).push(data@[1]@));
            } else {
                proof {
                    lemma_last_run_fails(lv, timestamp, ctxt, processes, k as int + 1, lv.len() as int);
                }
                return None;
            }
        } else if starts_with_str(&line, "ctxt") {
            match read_field_i64(&line) {
                Some(v) => match rate_of(ctxt, v, lastchecktime) {
                    Some(r) => rate_ctxt = r,
                    None => {
                        proof {
                            lemma_last_run_fails(lv, timestamp, ctxt, processes, k as int + 1, lv.len() as int);
                        }
                        return None;
                    },
                },
                None => {
                    proof {
                        lemma_last_run_fails(lv, timestamp, ctxt, processes, k as int + 1, lv.len() as int);
                    }
                    return None;
                },
            }
        } else if starts_with_str(&line, "processes") {
            match read_field_i64(&line) {
                Some(v) => match rate_of(processes, v, lastchecktime) {
                    Some(r) => rate_processes = r,
                    None => {
                        proof {
                            lemma_last_run_fails(lv, timestamp, ctxt, processes, k as int + 1, lv.len() as int);
                        }
                        return None;
                    },
                },
                None => {
                    proof {
                        lemma_last_run_fails(lv, timestamp, ctxt, processes, k as int + 1, lv.len() as int);
                    }
                    return None;
                },
            }
        }
    }
    Some(LastRun { lastchecktime, cpujson, rate_ctxt, rate_processes })
}

} // verus!

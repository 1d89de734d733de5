//! The software-interrupt counts of `/proc/softirqs`, per CPU, with the
//! totals of all CPUs under the name "cpu".
use vstd::prelude::*;

use crate::text::{
    chars_of, lowercase, parse_u32, parse_u32_spec, split_words, string_of, to_lowercase, views,
    views_of_strings, words,
};

verus! {

/// The entries of an association list, each key with its value.
pub type Assoc<V> = Seq<(Seq<char>, V)>;

/// The first position of `es` whose key is `k`.
pub open spec fn assoc_find<V>(es: Assoc<V>, k: Seq<char>) -> Option<int>
    decreases es.len(),
{
    if es.len() == 0 {
        None
    } else {
        match assoc_find(es.drop_last(), k) {
            Some(i) => Some(i),
            None => if es.last().0 == k {
                Some(es.len() - 1)
            } else {
                None
            },
        }
    }
}

/// The value of the first entry of `es` whose key is `k`.
pub open spec fn assoc_get<V>(es: Assoc<V>, k: Seq<char>) -> Option<V> {
    match assoc_find(es, k) {
        Some(i) => Some(es[i].1),
        None => None,
    }
}

/// `es` with `k` mapped to `v`: the entry of `k` keeps its place, a new key
/// comes last (as a map insert, in order of first insertion).
pub open spec fn assoc_set<V>(es: Assoc<V>, k: Seq<char>, v: V) -> Assoc<V> {
    match assoc_find(es, k) {
        Some(i) => es.update(i, (k, v)),
        None => es.push((k, v)),
    }
}

pub proof fn lemma_assoc_find<V>(es: Assoc<V>, k: Seq<char>)
    ensures
        match assoc_find(es, k) {
            Some(i) => 0 <= i < es.len() && es[i].0 == k && forall|j: int|
                0 <= j < i ==> (#[trigger] es[j]).0 != k,
            None => forall|j: int| 0 <= j < es.len() ==> (#[trigger] es[j]).0 != k,
        },
    decreases es.len(),
{
    if es.len() > 0 {
        let w = es.drop_last();
        lemma_assoc_find(w, k);
        assert forall|j: int| 0 <= j < w.len() implies #[trigger] es[j] == w[j] by {}
        match assoc_find(w, k) {
            Some(i) => {
                assert forall|j: int| 0 <= j < i implies (#[trigger] es[j]).0 != k by {
                    assert(es[j] == w[j]);
                }
            },
            None => {
                assert forall|j: int| 0 <= j < es.len() - 1 implies (#[trigger] es[j]).0 != k by {
                    assert(es[j] == w[j]);
                }
            },
        }
    }
}

pub proof fn lemma_assoc_find_unique<V>(es: Assoc<V>, k: Seq<char>, i: int)
    requires
        0 <= i < es.len(),
        es[i].0 == k,
        forall|j: int| 0 <= j < i ==> (#[trigger] es[j]).0 != k,
    ensures
        assoc_find(es, k) == Some(i),
{
    lemma_assoc_find(es, k);
}

pub proof fn lemma_assoc_find_none<V>(es: Assoc<V>, k: Seq<char>)
    requires
        forall|j: int| 0 <= j < es.len() ==> (#[trigger] es[j]).0 != k,
    ensures
        assoc_find(es, k) is None,
{
    lemma_assoc_find(es, k);
}

/// Setting `k` to `v` gives `v` for `k` and leaves every other key's value.
pub proof fn lemma_assoc_set_get<V>(es: Assoc<V>, k: Seq<char>, v: V, k2: Seq<char>)
    ensures
        assoc_get(assoc_set(es, k, v), k2) == if k2 == k {
            Some(v)
        } else {
            assoc_get(es, k2)
        },
{
    let ns = assoc_set(es, k, v);
    lemma_assoc_find(es, k);
    lemma_assoc_find(es, k2);
    match assoc_find(es, k) {
        Some(i) => {
            assert(ns == es.update(i, (k, v)));
            if k2 == k {
                assert forall|j: int| 0 <= j < i implies (#[trigger] ns[j]).0 != k by {
                    assert(ns[j] == es[j]);
                }
                lemma_assoc_find_unique(ns, k, i);
            } else {
                match assoc_find(es, k2) {
                    Some(i2) => {
                        assert forall|j: int| 0 <= j < i2 implies (#[trigger] ns[j]).0 != k2 by {
                            if j != i {
                                assert(ns[j] == es[j]);
                            }
                        }
                        assert(ns[i2] == es[i2]);
                        lemma_assoc_find_unique(ns, k2, i2);
                    },
                    None => {
                        assert forall|j: int| 0 <= j < ns.len() implies (#[trigger] ns[j]).0 != k2 by {
                            if j != i {
                                assert(ns[j] == es[j]);
                            }
                        }
                        lemma_assoc_find_none(ns, k2);
                    },
                }
            }
        },
        None => {
            assert(ns == es.push((k, v)));
            if k2 == k {
                assert forall|j: int| 0 <= j < es.len() implies (#[trigger] ns[j]).0 != k by {
                    assert(ns[j] == es[j]);
                }
                lemma_assoc_find_unique(ns, k, es.len() as int);
            } else {
                match assoc_find(es, k2) {
                    Some(i2) => {
                        assert forall|j: int| 0 <= j < i2 implies (#[trigger] ns[j]).0 != k2 by {
                            assert(ns[j] == es[j]);
                        }
                        assert(ns[i2] == es[i2]);
                        lemma_assoc_find_unique(ns, k2, i2);
                    },
                    None => {
                        assert forall|j: int| 0 <= j < ns.len() implies (#[trigger] ns[j]).0 != k2 by {
                            if j < es.len() {
                                assert(ns[j] == es[j]);
                            }
                        }
                        lemma_assoc_find_none(ns, k2);
                    },
                }
            }
        },
    }
}

/// The counts of one CPU, each interrupt name with its count.
pub open spec fn row_view(r: Seq<(String, u32)>) -> Assoc<u32> {
    r.map_values(|e: (String, u32)| (e.0@, e.1))
}

/// The counts of every CPU.
pub open spec fn rows_view(t: Seq<(String, Vec<(String, u32)>)>) -> Assoc<Assoc<u32>> {
    t.map_values(|e: (String, Vec<(String, u32)>)| (e.0@, row_view(e.1@)))
}

/// Software-interrupt counts: for each CPU name (lowercase, as "cpu0", and
/// "cpu" for the totals), each interrupt name ("HI:", "TIMER:", ...) with
/// its count.
pub struct SoftirqTable {
    pub cpus: Vec<(String, Vec<(String, u32)>)>,
}

impl View for SoftirqTable {
    type V = Assoc<Assoc<u32>>;

    open spec fn view(&self) -> Assoc<Assoc<u32>> {
        rows_view(self.cpus@)
    }
}

/// The first position of `row` whose interrupt name is `k`.
fn row_find(row: &Vec<(String, u32)>, k: &String) -> (r: Option<usize>)
    ensures
        match r {
            Some(i) => i < row@.len() && assoc_find(row_view(row@), k@) == Some(i as int),
            None => assoc_find(row_view(row@), k@) is None,
        },
{
    let ghost rv = row_view(row@);
    for i in 0..row.len()
        invariant
            rv == row_view(row@),
            forall|j: int| 0 <= j < i ==> (#[trigger] rv[j]).0 != k@,
    {
        assert(rv[i as int] == (row@[i as int].0@, row@[i as int].1));
        if row[i].0 == *k {
            proof {
                lemma_assoc_find_unique(rv, k@, i as int);
            }
            return Some(i);
        }
    }
    proof {
        lemma_assoc_find_none(rv, k@);
    }
    None
}

/// The first position of `t` whose CPU name is `k`.
fn cpu_find(t: &Vec<(String, Vec<(String, u32)>)>, k: &String) -> (r: Option<usize>)
    ensures
        match r {
            Some(i) => i < t@.len() && assoc_find(rows_view(t@), k@) == Some(i as int),
            None => assoc_find(rows_view(t@), k@) is None,
        },
{
    let ghost tv = rows_view(t@);
    for i in 0..t.len()
        invariant
            tv == rows_view(t@),
            forall|j: int| 0 <= j < i ==> (#[trigger] tv[j]).0 != k@,
    {
        assert(tv[i as int].0 == t@[i as int].0@);
        if t[i].0 == *k {
            proof {
                lemma_assoc_find_unique(tv, k@, i as int);
            }
            return Some(i);
        }
    }
    proof {
        lemma_assoc_find_none(tv, k@);
    }
    None
}

/// Maps `k` to `v` in `row`.
fn row_set(row: &mut Vec<(String, u32)>, k: String, v: u32)
    ensures
        row_view(final(row)@) == assoc_set(row_view(old(row)@), k@, v),
{
    match row_find(row, &k) {
        Some(i) => {
            let ghost kk = k@;
            row.remove(i);
            row.insert(i, (k, v));
            assert(row_view(row@) =~= row_view(old(row)@).update(i as int, (kk, v)));
        },
        None => {
            row.push((k, v));
            assert(row_view(row@) =~= row_view(old(row)@).push((k@, v)));
        },
    }
}

/// Maps `k` to the counts `v` in `t`.
fn cpu_set(t: &mut Vec<(String, Vec<(String, u32)>)>, k: String, v: Vec<(String, u32)>)
    ensures
        rows_view(final(t)@) == assoc_set(rows_view(old(t)@), k@, row_view(v@)),
{
    match cpu_find(t, &k) {
        Some(i) => {
            let ghost kk = k@;
            let ghost vv = row_view(v@);
            t.remove(i);
            t.insert(i, (k, v));
            assert(rows_view(t@) =~= rows_view(old(t)@).update(i as int, (kk, vv)));
        },
        None => {
            let ghost e = (k@, row_view(v@));
            t.push((k, v));
            assert(rows_view(t@) =~= rows_view(old(t)@).push(e));
        },
    }
}

// ---------------------------------------------------------------- reading /proc/softirqs

/// The CPU names of the header line ("CPU0 CPU1 ..."), lowercase.
pub open spec fn header_names(line: Seq<char>) -> Seq<Seq<char>> {
    words(line).map_values(|w: Seq<char>| lowercase(w))
}

/// A table with the first `n` CPU names and no counts.
pub open spec fn empty_rows(names: Seq<Seq<char>>, n: int) -> Assoc<Assoc<u32>>
    decreases n,
{
    if n <= 0 {
        seq![]
    } else {
        assoc_set(empty_rows(names, n - 1), names[n - 1], seq![])
    }
}

/// The table after the first `n` counts of a line `f` (its words: the
/// interrupt name, then one count per CPU of the header, in order); `None`
/// where a count is not a `u32` or has no CPU.
pub open spec fn fill_fields(t: Assoc<Assoc<u32>>, names: Seq<Seq<char>>, f: Seq<Seq<char>>, n: int) -> Option<Assoc<Assoc<u32>>>
    decreases n,
{
    if n <= 0 {
        Some(t)
    } else {
        match fill_fields(t, names, f, n - 1) {
            None => None,
            Some(t2) => {
                if n - 1 >= names.len() {
                    None
                } else {
                    match (parse_u32_spec(f[n]), assoc_get(t2, names[n - 1])) {
                        (Some(v), Some(row)) => Some(
                            assoc_set(t2, names[n - 1], assoc_set(row, f[0], v)),
                        ),
                        _ => None,
                    }
                }
            },
        }
    }
}

/// The table after the first `k` lines (the header and `k - 1` count lines);
/// `None` where a line is refused (an empty line among them).
pub open spec fn fill_lines(lines: Seq<Seq<char>>, names: Seq<Seq<char>>, k: int) -> Option<Assoc<Assoc<u32>>>
    decreases k,
{
    if k <= 1 {
        Some(empty_rows(names, names.len() as int))
    } else {
        match fill_lines(lines, names, k - 1) {
            None => None,
            Some(t) => {
                let f = words(lines[k - 1]);
                if f.len() == 0 {
                    None
                } else {
                    fill_fields(t, names, f, f.len() - 1)
                }
            },
        }
    }
}

/// Adds `v` to the total of `k`; `None` when the total leaves `u32`.
pub open spec fn add_count(tot: Assoc<u32>, k: Seq<char>, v: u32) -> Option<Assoc<u32>> {
    match assoc_get(tot, k) {
        Some(x) => if x + v <= u32::MAX {
            Some(assoc_set(tot, k, (x + v) as u32))
        } else {
            None
        },
        None => Some(assoc_set(tot, k, v)),
    }
}

/// The totals after the first `n` counts of `row`.
pub open spec fn add_row(tot: Assoc<u32>, row: Assoc<u32>, n: int) -> Option<Assoc<u32>>
    decreases n,
{
    if n <= 0 {
        Some(tot)
    } else {
        match add_row(tot, row, n - 1) {
            None => None,
            Some(t2) => add_count(t2, row[n - 1].0, row[n - 1].1),
        }
    }
}

/// The totals of the first `n` CPUs of `t`, interrupt by interrupt; `None`
/// when a running total leaves `u32`.
pub open spec fn totals_upto(t: Assoc<Assoc<u32>>, n: int) -> Option<Assoc<u32>>
    decreases n,
{
    if n <= 0 {
        Some(seq![])
    } else {
        match totals_upto(t, n - 1) {
            None => None,
            Some(tot) => add_row(tot, t[n - 1].1, t[n - 1].1.len() as int),
        }
    }
}

/// The table that the lines of `/proc/softirqs` stand for, the CPUs of the
/// header line (the first, which is skipped) being named `names`: per CPU
/// each interrupt with its count, and under "cpu" the totals of all CPUs;
/// `None` where the file is refused.
pub open spec fn softirqs_with(names: Seq<Seq<char>>, lines: Seq<Seq<char>>) -> Option<Assoc<Assoc<u32>>> {
    match fill_lines(lines, names, lines.len() as int) {
        None => None,
        Some(t) => match totals_upto(t, t.len() as int) {
            None => None,
            Some(tot) => Some(assoc_set(t, "cpu"@, tot)),
        },
    }
}

/// The table that `/proc/softirqs` (given line by line) stands for: per
/// CPU of the header, lowercased, each interrupt with its count, and under
/// "cpu" the totals of all CPUs; `None` where the file is refused.
pub open spec fn softirqs_of(lines: Seq<Seq<char>>) -> Option<Assoc<Assoc<u32>>> {
    if lines.len() == 0 {
        None
    } else {
        softirqs_with(header_names(lines[0]), lines)
    }
}

/// The lines of a file, as text.
pub open spec fn lines_view(lines: Seq<String>) -> Seq<Seq<char>> {
    lines.map_values(|l: String| l@)
}

/// Reads one count line into `t`.
fn fill_line(t: &mut Vec<(String, Vec<(String, u32)>)>, names: &Vec<String>, f: &Vec<Vec<char>>) -> (ok: bool)
    requires
        f@.len() > 0,
    ensures
        ok == fill_fields(
            rows_view(old(t)@),
            views_of_strings(names@),
            views(f@),
            f@.len() - 1,
        ) is Some,
        ok ==> Some(rows_view(final(t)@)) == fill_fields(
            rows_view(old(t)@),
            views_of_strings(names@),
            views(f@),
            f@.len() - 1,
        ),
{
    let ghost fv = views(f@);
    let ghost nv = views_of_strings(names@);
    let ghost t0 = rows_view(t@);
    let irq = string_of(&f[0]);
    assert(irq@ == fv[0]);
    let mut j: usize = 1;
    while j < f.len()
        invariant
            1 <= j <= f@.len(),
            fv == views(f@),
            nv == views_of_strings(names@),
            t0 == rows_view(old(t)@),
            irq@ == fv[0],
            fill_fields(t0, nv, fv, j - 1) == Some(rows_view(t@)),
        decreases f@.len() - j,
    {
        if j - 1 >= names.len() {
            proof {
                lemma_fill_fields_fails(t0, nv, fv, j as int, f@.len() - 1);
            }
            return false;
        }
        assert(fv[j as int] == f@[j as int]@);
        assert(nv[j - 1] == names@[j - 1]@);
        let value = match parse_u32(&f[j]) {
            Some(v) => v,
            None => {
                proof {
                    lemma_fill_fields_fails(t0, nv, fv, j as int, f@.len() - 1);
                }
                return false;
            },
        };
        match cpu_find(t, &names[j - 1]) {
            Some(i) => {
                let ghost tb = rows_view(t@);
                proof {
                    lemma_assoc_find(tb, nv[j - 1]);
                }
                let (name, mut row) = t.remove(i);
                assert(tb[i as int] == (name@, row_view(row@)));
                row_set(&mut row, irq.clone(), value);
                t.insert(i, (name, row));
                assert(rows_view(t@) =~= tb.update(i as int, (tb[i as int].0, rows_view(t@)[i as int].1)));
                assert(rows_view(t@) == assoc_set(tb, nv[j - 1], rows_view(t@)[i as int].1));
            },
            None => {
                proof {
                    lemma_fill_fields_fails(t0, nv, fv, j as int, f@.len() - 1);
                }
                return false;
            },
        }
        j = j + 1;
    }
    true
}

proof fn lemma_fill_fields_fails(t: Assoc<Assoc<u32>>, names: Seq<Seq<char>>, f: Seq<Seq<char>>, j: int, n: int)
    requires
        1 <= j <= n,
        fill_fields(t, names, f, j) is None,
    ensures
        fill_fields(t, names, f, n) is None,
    decreases n - j,
{
    if j < n {
        lemma_fill_fields_fails(t, names, f, j, n - 1);
    }
}

proof fn lemma_add_row_fails(tot: Assoc<u32>, row: Assoc<u32>, j: int, n: int)
    requires
        0 <= j <= n,
        add_row(tot, row, j) is None,
    ensures
        add_row(tot, row, n) is None,
    decreases n - j,
{
    if j < n {
        lemma_add_row_fails(tot, row, j, n - 1);
    }
}

proof fn lemma_totals_fail(t: Assoc<Assoc<u32>>, j: int, n: int)
    requires
        0 <= j <= n,
        totals_upto(t, j) is None,
    ensures
        totals_upto(t, n) is None,
    decreases n - j,
{
    if j < n {
        lemma_totals_fail(t, j, n - 1);
    }
}

proof fn lemma_fill_lines_fails(lines: Seq<Seq<char>>, names: Seq<Seq<char>>, j: int, n: int)
    requires
        1 <= j <= n,
        fill_lines(lines, names, j) is None,
    ensures
        fill_lines(lines, names, n) is None,
    decreases n - j,
{
    if j < n {
        lemma_fill_lines_fails(lines, names, j, n - 1);
    }
}

/// The totals of all CPUs of `t`, interrupt by interrupt, in order of first
/// appearance; `None` when a running total leaves `u32`.
fn totals_of(t: &Vec<(String, Vec<(String, u32)>)>) -> (r: Option<Vec<(String, u32)>>)
    ensures
        match r {
            Some(v) => totals_upto(rows_view(t@), t@.len() as int) == Some(row_view(v@)),
            None => totals_upto(rows_view(t@), t@.len() as int) is None,
        },
{
    let ghost tv = rows_view(t@);
    let mut tot: Vec<(String, u32)> = Vec::new();
    for n in 0..t.len()
        invariant
            tv == rows_view(t@),
            totals_upto(tv, n as int) == Some(row_view(tot@)),
    {
        let row = &t[n].1;
        let ghost rv = row_view(row@);
        assert(tv[n as int].1 == rv);
        let ghost start = row_view(tot@);
        for j in 0..row.len()
            invariant
                rv == row_view(row@),
                n < t@.len(),
                tv == rows_view(t@),
                tv[n as int].1 == rv,
                totals_upto(tv, n as int) == Some(start),
                add_row(start, rv, j as int) == Some(row_view(tot@)),
        {
            assert(rv[j as int] == (row@[j as int].0@, row@[j as int].1));
            let v = row[j].1;
            match row_find(&tot, &row[j].0) {
                Some(i) => {
                    let x = tot[i].1;
                    assert(row_view(tot@)[i as int].1 == x);
                    if x > u32::MAX - v {
                        proof {
                            lemma_add_row_fails(start, rv, j as int + 1, rv.len() as int);
                            lemma_totals_fail(tv, n as int + 1, tv.len() as int);
                        }
                        return None;
                    }
                    row_set(&mut tot, row[j].0.clone(), x + v);
                },
                None => {
                    row_set(&mut tot, row[j].0.clone(), v);
                },
            }
        }
        assert(rv.len() == row@.len());
    }
    Some(tot)
}

/// Reads the lines of `/proc/softirqs` with the CPUs of the header line
/// (the first line, which is skipped) named `names`; or `None` where the
/// file is refused: an empty line, a count that is not a `u32` or has no
/// CPU in `names`, or a total past `u32::MAX`.
pub fn softirqs_with_names(names: &Vec<String>, lines: &Vec<String>) -> (r: Option<SoftirqTable>)
    ensures
        match r {
            Some(t) => softirqs_with(views_of_strings(names@), lines_view(lines@)) == Some(t@),
            None => softirqs_with(views_of_strings(names@), lines_view(lines@)) is None,
        },
{
    let ghost lv = lines_view(lines@);
    let ghost hv = views_of_strings(names@);
    let mut t: Vec<(String, Vec<(String, u32)>)> = Vec::new();
    for i in 0..names.len()
        invariant
            views_of_strings(names@) == hv,
            rows_view(t@) == empty_rows(hv, i as int),
    {
        assert(hv[i as int] == names@[i as int]@);
        cpu_set(&mut t, names[i].clone(), Vec::new());
        assert(row_view(Seq::<(String, u32)>::empty()) =~= Seq::<(Seq<char>, u32)>::empty());
    }
    let mut k: usize = 1;
    while k < lines.len()
        invariant
            1 <= k,
            k <= lines@.len() || k == 1,
            lv == lines_view(lines@),
            views_of_strings(names@) == hv,
            fill_lines(lv, hv, k as int) == Some(rows_view(t@)),
        decreases lines@.len() - k,
    {
        assert(lv[k as int] == lines@[k as int]@);
        let line = chars_of(lines[k].as_str());
        let f = split_words(&line);
        if f.len() == 0 {
            proof {
                lemma_fill_lines_fails(lv, hv, k as int + 1, lv.len() as int);
            }
            return None;
        }
        if !fill_line(&mut t, names, &f) {
            proof {
                lemma_fill_lines_fails(lv, hv, k as int + 1, lv.len() as int);
            }
            return None;
        }
        k = k + 1;
    }
    assert(lv.len() == lines@.len());
    if lines.len() == 0 {
        assert(fill_lines(lv, hv, 0) == fill_lines(lv, hv, 1));
    }
    assert(fill_lines(lv, hv, lv.len() as int) == Some(rows_view(t@)));
    match totals_of(&t) {
        Some(tot) => {
            let cpu = string_of(&chars_of("cpu"));
            cpu_set(&mut t, cpu, tot);
            Some(SoftirqTable { cpus: t })
        },
        None => None,
    }
}

/// Reads `/proc/softirqs` (given line by line), or `None` where
/// `get_softirqs` would fail: no header line, an empty line, a count that
/// is not a `u32` or has no CPU in the header, or a total past `u32::MAX`.
pub fn try_get_softirqs(lines: &Vec<String>) -> (r: Option<SoftirqTable>)
    ensures
        match r {
            Some(t) => softirqs_of(lines_view(lines@)) == Some(t@),
            None => softirqs_of(lines_view(lines@)) is None,
        },
{
    let ghost lv = lines_view(lines@);
    if lines.len() == 0 {
        return None;
    }
    assert(lv[0] == lines@[0]@);
    let header = chars_of(lines[0].as_str());
    let header_words = split_words(&header);
    let mut names: Vec<String> = Vec::new();
    let ghost hv = header_names(lv[0]);
    assert(hv.len() == header_words@.len());
    for i in 0..header_words.len()
        invariant
            lv.len() > 0,
            views(header_words@) == words(lv[0]),
            hv == header_names(lv[0]),
            hv.len() == header_words@.len(),
            views_of_strings(names@) == hv.take(i as int),
    {
        let w = string_of(&header_words[i]);
        let lw = to_lowercase(w.as_str());
        assert(lw@ == hv[i as int]);
        let ghost before = names@;
        names.push(lw);
        assert(views_of_strings(names@) =~= views_of_strings(before).push(hv[i as int]));
        assert(hv.take(i as int + 1) =~= hv.take(i as int).push(hv[i as int]));
    }
    assert(hv.take(header_words@.len() as int) =~= hv);
    softirqs_with_names(&names, lines)
}

/// Reads `/proc/softirqs`, given line by line: the first line names the
/// CPUs, each other line an interrupt and its count on each CPU.
pub fn get_softirqs(lines: &Vec<String>) -> (table: SoftirqTable)
    requires
        softirqs_of(lines_view(lines@)) is Some,
    ensures
        softirqs_of(lines_view(lines@)) == Some(table@),
{
    match try_get_softirqs(lines) {
        Some(t) => t,
        None => SoftirqTable { cpus: Vec::new() },
    }
}

/// The count of interrupt `irq` on CPU `cpu`, if the table has it.
pub open spec fn count_of(t: Assoc<Assoc<u32>>, cpu: Seq<char>, irq: Seq<char>) -> Option<u32> {
    match assoc_get(t, cpu) {
        Some(row) => assoc_get(row, irq),
        None => None,
    }
}

/// Looks up the count of interrupt `irq` on CPU `cpu`.
pub fn softirq_count(table: &SoftirqTable, cpu: &String, irq: &String) -> (r: Option<u32>)
    ensures
        r == count_of(table@, cpu@, irq@),
{
    match cpu_find(&table.cpus, cpu) {
        Some(i) => {
            let row = &table.cpus[i].1;
            assert(table@[i as int].1 == row_view(row@));
            match row_find(row, irq) {
                Some(j) => {
                    assert(row_view(row@)[j as int].1 == row@[j as int].1);
                    Some(row[j].1)
                },
                None => None,
            }
        },
        None => None,
    }
}

} // verus!

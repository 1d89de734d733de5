//! Properties of the library that span several calls or hold of every
//! input.
use vstd::prelude::*;

use crate::history::{last_run_upto, rate, stats_file_spec};
use crate::summary::{process_table_spec, system_table_spec};
use crate::linked::{drop_key, insert_entry};
use crate::softirqs::{
    add_count, add_row, assoc_get, count_of, fill_lines, header_names, lemma_assoc_set_get,
    softirqs_of, totals_upto, Assoc,
};
use crate::range::{range_item_values, range_items_values, range_list_values};
use crate::text::{
    char_is, int_text, is_digit, is_ws, lemma_int_text_chars, lemma_int_text_reads_back,
    lemma_split_concat, lemma_split_none, nonempty, split_by, split_char,
    starts_with, words, ws_sep,
};
use crate::stat::{
    changes_upto, diffs_upto, insert_all, is_last, last_index, lemma_last_index, softirqs_diff,
    softirqs_diff_fits, time_diff, time_diff_fits, CpuSoftIrqs, CpuStatView, CpuTime,
};

verus! {

/// A difference of times that is zero in every state present.
pub open spec fn zero_time(t: CpuTime) -> bool {
    &&& t.user == 0 && t.nice == 0 && t.system == 0 && t.idle == 0
    &&& (t.iowait is None || t.iowait == Some(0i64))
    &&& (t.irq is None || t.irq == Some(0i64))
    &&& (t.softirq is None || t.softirq == Some(0i64))
    &&& (t.steal is None || t.steal == Some(0i64))
    &&& (t.guest is None || t.guest == Some(0i64))
    &&& (t.guest_nice is None || t.guest_nice == Some(0i64))
}

/// A difference of counts that is zero for every interrupt.
pub open spec fn zero_softirqs(q: CpuSoftIrqs) -> bool {
    q.hi == 0 && q.timer == 0 && q.net_tx == 0 && q.net_rx == 0 && q.block == 0 && q.irq_poll == 0
        && q.tasklet == 0 && q.sched == 0 && q.hrtimer == 0 && q.rcu == 0
}

proof fn lemma_is_last_found(v: Seq<CpuStatView>, i: int)
    requires
        0 <= i < v.len(),
        is_last(v, i),
    ensures
        last_index(v, v[i].name) == Some(i),
{
    lemma_last_index(v, v[i].name);
    match last_index(v, v[i].name) {
        Some(j) => {
            if j < i {
                assert(v[i].name != v[i].name);
            } else if j > i {
                assert(v[j].name != v[i].name);
            }
        },
        None => {
            assert(v[i].name != v[i].name);
        },
    }
}

/// A sample compared with itself shows no CPU added or removed, and a zero
/// difference for every CPU.
pub proof fn law_compare_same_sample(v: Seq<CpuStatView>, tag: Seq<char>, k: int)
    requires
        0 <= k <= v.len(),
    ensures
        changes_upto(v, v, k, tag) == Seq::<(Seq<char>, Seq<char>)>::empty(),
        forall|i: int|
            0 <= i < diffs_upto(v, v, k).len() ==> zero_time((#[trigger] diffs_upto(v, v, k)[i]).1)
                && zero_softirqs(diffs_upto(v, v, k)[i].2),
    decreases k,
{
    if k > 0 {
        law_compare_same_sample(v, tag, k - 1);
        if is_last(v, k - 1) {
            lemma_is_last_found(v, k - 1);
        }
        let d = diffs_upto(v, v, k);
        let d0 = diffs_upto(v, v, k - 1);
        assert forall|i: int| 0 <= i < d.len() implies zero_time((#[trigger] d[i]).1) && zero_softirqs(
            d[i].2,
        ) by {
            if i < d0.len() {
                assert(d[i] == d0[i]);
            }
        }
    }
}

/// The two times have the same optional states present.
pub open spec fn same_states(a: CpuTime, b: CpuTime) -> bool {
    &&& (a.iowait is Some <==> b.iowait is Some)
    &&& (a.irq is Some <==> b.irq is Some)
    &&& (a.softirq is Some <==> b.softirq is Some)
    &&& (a.steal is Some <==> b.steal is Some)
    &&& (a.guest is Some <==> b.guest is Some)
    &&& (a.guest_nice is Some <==> b.guest_nice is Some)
}

/// No two entries of the sample have the same name.
pub open spec fn distinct_names(v: Seq<CpuStatView>) -> bool {
    forall|i: int, j: int| 0 <= i < j < v.len() ==> (#[trigger] v[i]).name != (#[trigger] v[j]).name
}

/// Whether `e` is an entry of `w`.
pub open spec fn occurs(w: Seq<CpuStatView>, e: CpuStatView) -> bool {
    exists|j: int| 0 <= j < w.len() && w[j] == e
}

/// `w` holds the entries of `v` in some order: as many, and each entry of `v` found in `w`.
pub open spec fn reordered(v: Seq<CpuStatView>, w: Seq<CpuStatView>) -> bool {
    &&& w.len() == v.len()
    &&& forall|i: int| 0 <= i < v.len() ==> #[trigger] occurs(w, v[i])
}

/// Each entry of a reordered copy is an entry of the sample, and the copy's
/// names differ too.
proof fn lemma_reordered_back(v: Seq<CpuStatView>, w: Seq<CpuStatView>)
    requires
        distinct_names(v),
        reordered(v, w),
    ensures
        forall|j: int| 0 <= j < w.len() ==> #[trigger] occurs(v, w[j]),
        distinct_names(w),
{
    let n = v.len() as int;
    let f = |i: int| choose|j: int| 0 <= j < w.len() && w[j] == v[i];
    let x = vstd::set_lib::set_int_range(0, n);
    let y = x.map(f);
    assert forall|i: int| 0 <= i < n implies 0 <= #[trigger] f(i) < n && w[f(i)] == v[i] by {
        assert(occurs(w, v[i]));
    }
    assert(vstd::relations::injective_on(f, x)) by {
        assert forall|a: int, b: int| x.contains(a) && x.contains(b) && #[trigger] f(a) == #[trigger] f(b) implies a == b by {
            assert(w[f(a)] == v[a] && w[f(b)] == v[b]);
            if a < b {
                assert(v[a].name != v[b].name);
            } else if b < a {
                assert(v[b].name != v[a].name);
            }
        }
    }
    vstd::set_lib::lemma_int_range(0, n);
    vstd::set_lib::lemma_map_size(x, y, f);
    assert(y.subset_of(x)) by {
        assert forall|j: int| y.contains(j) implies x.contains(j) by {
            let i = choose|i: int| x.contains(i) && f(i) == j;
        }
    }
    vstd::set_lib::lemma_subset_equality(y, x);
    assert forall|j: int| 0 <= j < w.len() implies #[trigger] occurs(v, w[j]) by {
        assert(x.contains(j));
        assert(y.contains(j));
        let i = choose|i: int| x.contains(i) && f(i) == j;
        assert(w[j] == v[i]);
    }
    assert forall|a: int, b: int| 0 <= a < b < w.len() implies (#[trigger] w[a]).name != (#[trigger] w[b]).name by {
        assert(x.contains(a) && y.contains(a));
        assert(x.contains(b) && y.contains(b));
        let ia = choose|i: int| x.contains(i) && f(i) == a;
        let ib = choose|i: int| x.contains(i) && f(i) == b;
        if w[a].name == w[b].name {
            assert(v[ia].name == v[ib].name);
            if ia < ib {
                assert(v[ia].name != v[ib].name);
            } else if ib < ia {
                assert(v[ib].name != v[ia].name);
            }
        }
    }
}

proof fn lemma_distinct_is_last(v: Seq<CpuStatView>, i: int)
    requires
        distinct_names(v),
        0 <= i < v.len(),
    ensures
        is_last(v, i),
        last_index(v, v[i].name) == Some(i),
{
    assert forall|j: int| i < j < v.len() implies (#[trigger] v[j]).name != v[i].name by {
        assert(v[i].name != v[j].name);
    }
    lemma_is_last_found(v, i);
}

proof fn lemma_no_changes(from: Seq<CpuStatView>, other: Seq<CpuStatView>, tag: Seq<char>, k: int)
    requires
        0 <= k <= from.len(),
        forall|i: int| 0 <= i < from.len() ==> #[trigger] last_index(other, from[i].name) is Some,
    ensures
        changes_upto(from, other, k, tag).len() == 0,
    decreases k,
{
    if k > 0 {
        assert(last_index(other, from[k - 1].name) is Some);
        lemma_no_changes(from, other, tag, k - 1);
    }
}

proof fn lemma_copy_diffs(now: Seq<CpuStatView>, last: Seq<CpuStatView>, k: int)
    requires
        0 <= k <= last.len(),
        distinct_names(now),
        distinct_names(last),
        forall|j: int| 0 <= j < last.len() ==> #[trigger] occurs(now, last[j]),
    ensures
        diffs_upto(now, last, k).len() == k,
        forall|m: int|
            0 <= m < k ==> {
                let d = #[trigger] diffs_upto(now, last, k)[m];
                &&& d.0 == last[m].name
                &&& zero_time(d.1)
                &&& zero_softirqs(d.2)
                &&& same_states(d.1, last[m].stat)
            },
    decreases k,
{
    if k > 0 {
        lemma_copy_diffs(now, last, k - 1);
        let j = k - 1;
        assert(occurs(now, last[j]));
        let i = choose|i: int| 0 <= i < now.len() && now[i] == last[j];
        lemma_distinct_is_last(last, j);
        lemma_distinct_is_last(now, i);
        let d0 = diffs_upto(now, last, k - 1);
        let d = diffs_upto(now, last, k);
        assert(d == d0.push((now[i].name, time_diff(now[i].stat, last[j].stat), softirqs_diff(now[i].softirqs, last[j].softirqs))));
        assert forall|m: int|
            0 <= m < k implies {
                let e = #[trigger] diffs_upto(now, last, k)[m];
                &&& e.0 == last[m].name
                &&& zero_time(e.1)
                &&& zero_softirqs(e.2)
                &&& same_states(e.1, last[m].stat)
            } by {
            if m < k - 1 {
                assert(d[m] == d0[m]);
            }
        }
    }
}

/// A sample compared with a reordered copy of itself (its names all
/// different) shows no CPU added or removed, one difference per CPU, each
/// zero in every state and interrupt, with the optional states present
/// where the sample has them.
pub proof fn law_compare_reordered_copy(v1: Seq<CpuStatView>, v2: Seq<CpuStatView>)
    requires
        distinct_names(v1),
        reordered(v1, v2),
    ensures
        ({
            let removed = changes_upto(v2, v1, v2.len() as int, "removed"@);
            let added = changes_upto(v1, v2, v1.len() as int, "added"@);
            let d = diffs_upto(v1, v2, v2.len() as int);
            &&& insert_all(seq![], removed + added) == Seq::<(Seq<char>, Seq<char>)>::empty()
            &&& d.len() == v1.len()
            &&& forall|m: int|
                0 <= m < d.len() ==> {
                    &&& zero_time((#[trigger] d[m]).1)
                    &&& zero_softirqs(d[m].2)
                    &&& exists|i: int| 0 <= i < v1.len() && v1[i].name == d[m].0 && same_states(d[m].1, v1[i].stat)
                }
        }),
{
    lemma_reordered_back(v1, v2);
    let n = v1.len() as int;
    assert forall|i: int| 0 <= i < v1.len() implies #[trigger] last_index(v2, v1[i].name) is Some by {
        assert(occurs(v2, v1[i]));
        let j = choose|j: int| 0 <= j < v2.len() && v2[j] == v1[i];
        lemma_distinct_is_last(v2, j);
    }
    assert forall|j: int| 0 <= j < v2.len() implies #[trigger] last_index(v1, v2[j].name) is Some by {
        assert(occurs(v1, v2[j]));
        let i = choose|i: int| 0 <= i < v1.len() && v1[i] == v2[j];
        lemma_distinct_is_last(v1, i);
    }
    lemma_no_changes(v2, v1, "removed"@, v2.len() as int);
    lemma_no_changes(v1, v2, "added"@, v1.len() as int);
    let removed = changes_upto(v2, v1, v2.len() as int, "removed"@);
    let added = changes_upto(v1, v2, v1.len() as int, "added"@);
    assert(removed + added =~= Seq::<(Seq<char>, Seq<char>)>::empty());
    lemma_copy_diffs(v1, v2, v2.len() as int);
    let d = diffs_upto(v1, v2, v2.len() as int);
    assert forall|m: int| 0 <= m < d.len() implies {
        &&& zero_time((#[trigger] d[m]).1)
        &&& zero_softirqs(d[m].2)
        &&& exists|i: int| 0 <= i < v1.len() && v1[i].name == d[m].0 && same_states(d[m].1, v1[i].stat)
    } by {
        assert(occurs(v1, v2[m]));
        let i = choose|i: int| 0 <= i < v1.len() && v1[i] == v2[m];
        assert(v1[i].name == d[m].0 && same_states(d[m].1, v1[i].stat));
    }
}

/// Each difference, added back to the earlier sample, gives the current
/// one: comparing undoes nothing that it does not report.
pub proof fn law_difference_adds_back(a: CpuTime, b: CpuTime, qa: CpuSoftIrqs, qb: CpuSoftIrqs)
    requires
        time_diff_fits(a, b),
        softirqs_diff_fits(qa, qb),
    ensures
        time_diff(a, b).user + b.user == a.user,
        time_diff(a, b).nice + b.nice == a.nice,
        time_diff(a, b).system + b.system == a.system,
        time_diff(a, b).idle + b.idle == a.idle,
        (a.iowait is Some && b.iowait is Some) <==> time_diff(a, b).iowait is Some,
        time_diff(a, b).iowait matches Some(d) ==> d + b.iowait->0 == a.iowait->0,
        time_diff(a, b).irq matches Some(d) ==> d + b.irq->0 == a.irq->0,
        time_diff(a, b).softirq matches Some(d) ==> d + b.softirq->0 == a.softirq->0,
        time_diff(a, b).steal matches Some(d) ==> d + b.steal->0 == a.steal->0,
        time_diff(a, b).guest matches Some(d) ==> d + b.guest->0 == a.guest->0,
        time_diff(a, b).guest_nice matches Some(d) ==> d + b.guest_nice->0 == a.guest_nice->0,
        softirqs_diff(qa, qb).hi + qb.hi == qa.hi,
        softirqs_diff(qa, qb).timer + qb.timer == qa.timer,
        softirqs_diff(qa, qb).net_tx + qb.net_tx == qa.net_tx,
        softirqs_diff(qa, qb).net_rx + qb.net_rx == qa.net_rx,
        softirqs_diff(qa, qb).block + qb.block == qa.block,
        softirqs_diff(qa, qb).irq_poll + qb.irq_poll == qa.irq_poll,
        softirqs_diff(qa, qb).tasklet + qb.tasklet == qa.tasklet,
        softirqs_diff(qa, qb).sched + qb.sched == qa.sched,
        softirqs_diff(qa, qb).hrtimer + qb.hrtimer == qa.hrtimer,
        softirqs_diff(qa, qb).rcu + qb.rcu == qa.rcu,
{
}

/// The names among the entries.
pub open spec fn keys_of(es: Seq<(Seq<char>, Seq<char>)>) -> Seq<Seq<char>> {
    es.map_values(|e: (Seq<char>, Seq<char>)| e.0)
}

proof fn lemma_drop_absent_key(es: Seq<(Seq<char>, Seq<char>)>, k: Seq<char>)
    requires
        !keys_of(es).contains(k),
    ensures
        drop_key(es, k) == es,
    decreases es.len(),
{
    if es.len() > 0 {
        let w = es.drop_last();
        assert(!keys_of(w).contains(k)) by {
            if keys_of(w).contains(k) {
                let i = choose|i: int| 0 <= i < keys_of(w).len() && keys_of(w)[i] == k;
                assert(keys_of(es)[i] == k);
            }
        }
        lemma_drop_absent_key(w, k);
        assert(keys_of(es)[es.len() - 1] == es.last().0);
        assert(es =~= w.push(es.last()));
    }
}

/// Inserting entries whose names all differ, one after the other, lists them
/// in that order.
proof fn lemma_insert_all_distinct(pairs: Seq<(Seq<char>, Seq<char>)>)
    requires
        keys_of(pairs).no_duplicates(),
    ensures
        insert_all(seq![], pairs) == pairs,
    decreases pairs.len(),
{
    if pairs.len() > 0 {
        let w = pairs.drop_last();
        assert(keys_of(w).no_duplicates()) by {
            assert forall|i: int, j: int| 0 <= i < keys_of(w).len() && 0 <= j < keys_of(w).len() && i != j
                implies keys_of(w)[i] != keys_of(w)[j] by {
                assert(keys_of(pairs)[i] == keys_of(w)[i] && keys_of(pairs)[j] == keys_of(w)[j]);
            }
        }
        lemma_insert_all_distinct(w);
        assert(!keys_of(w).contains(pairs.last().0)) by {
            if keys_of(w).contains(pairs.last().0) {
                let i = choose|i: int| 0 <= i < keys_of(w).len() && keys_of(w)[i] == pairs.last().0;
                assert(keys_of(pairs)[i] == keys_of(pairs)[pairs.len() - 1]);
            }
        }
        lemma_drop_absent_key(w, pairs.last().0);
        assert(pairs =~= w.push(pairs.last()));
    }
}

proof fn lemma_changes_names(from: Seq<CpuStatView>, other: Seq<CpuStatView>, tag: Seq<char>, k: int)
    requires
        0 <= k <= from.len(),
    ensures
        keys_of(changes_upto(from, other, k, tag)).no_duplicates(),
        forall|n: Seq<char>|
            #[trigger] keys_of(changes_upto(from, other, k, tag)).contains(n) ==> last_index(other, n)
                is None && exists|i: int| 0 <= i < k && is_last(from, i) && from[i].name == n,
        forall|i: int|
            0 <= i < changes_upto(from, other, k, tag).len() ==> (#[trigger] changes_upto(
                from,
                other,
                k,
                tag,
            )[i]).1 == tag,
    decreases k,
{
    if k > 0 {
        lemma_changes_names(from, other, tag, k - 1);
        let c0 = changes_upto(from, other, k - 1, tag);
        let c = changes_upto(from, other, k, tag);
        if is_last(from, k - 1) && last_index(other, from[k - 1].name) is None {
            let n = from[k - 1].name;
            assert(c == c0.push((n, tag)));
            assert(keys_of(c) =~= keys_of(c0).push(n));
            assert(!keys_of(c0).contains(n)) by {
                if keys_of(c0).contains(n) {
                    let i = choose|i: int| 0 <= i < k - 1 && is_last(from, i) && from[i].name == n;
                    assert(from[k - 1].name != from[i].name);
                }
            }
            assert forall|m: Seq<char>| #[trigger] keys_of(c).contains(m) implies last_index(other, m)
                is None && exists|i: int| 0 <= i < k && is_last(from, i) && from[i].name == m by {
                if m != n {
                    let j = choose|j: int| 0 <= j < keys_of(c).len() && keys_of(c)[j] == m;
                    assert(keys_of(c0)[j] == m);
                    assert(keys_of(c0).contains(m));
                }
            }
            assert forall|i: int| 0 <= i < c.len() implies (#[trigger] c[i]).1 == tag by {
                if i < c0.len() {
                    assert(c[i] == c0[i]);
                }
            }
        }
    }
}

/// The change table of a comparison lists the CPUs of the earlier sample
/// missing from the current one, marked "removed", then those of the
/// current sample missing from the earlier one, marked "added": each name
/// once, and no name both removed and added.
pub proof fn law_change_table_lists_each_cpu_once(now: Seq<CpuStatView>, last: Seq<CpuStatView>)
    ensures
        ({
            let removed = changes_upto(last, now, last.len() as int, "removed"@);
            let added = changes_upto(now, last, now.len() as int, "added"@);
            &&& insert_all(seq![], removed + added) == removed + added
            &&& keys_of(removed + added).no_duplicates()
            &&& forall|n: Seq<char>| #[trigger] keys_of(removed).contains(n) ==> last_index(now, n) is None
                && last_index(last, n) is Some
            &&& forall|n: Seq<char>| #[trigger] keys_of(added).contains(n) ==> last_index(last, n) is None
                && last_index(now, n) is Some
        }),
{
    let removed = changes_upto(last, now, last.len() as int, "removed"@);
    let added = changes_upto(now, last, now.len() as int, "added"@);
    lemma_changes_names(last, now, "removed"@, last.len() as int);
    lemma_changes_names(now, last, "added"@, now.len() as int);
    assert forall|n: Seq<char>| #[trigger] keys_of(removed).contains(n) implies last_index(now, n) is None
        && last_index(last, n) is Some by {
        let i = choose|i: int| 0 <= i < last.len() && is_last(last, i) && last[i].name == n;
        lemma_last_index(last, n);
    }
    assert forall|n: Seq<char>| #[trigger] keys_of(added).contains(n) implies last_index(last, n) is None
        && last_index(now, n) is Some by {
        let i = choose|i: int| 0 <= i < now.len() && is_last(now, i) && now[i].name == n;
        lemma_last_index(now, n);
    }
    let all = removed + added;
    assert(keys_of(all) =~= keys_of(removed) + keys_of(added));
    assert(keys_of(all).no_duplicates()) by {
        assert forall|i: int, j: int| 0 <= i < keys_of(all).len() && 0 <= j < keys_of(all).len() && i != j
            implies keys_of(all)[i] != keys_of(all)[j] by {
            let rl = keys_of(removed).len() as int;
            if i < rl && j >= rl {
                let n = keys_of(all)[i];
                assert(keys_of(removed)[i] == n);
                assert(keys_of(removed).contains(n));
                if keys_of(all)[j] == n {
                    assert(keys_of(added)[j - rl] == n);
                    assert(keys_of(added).contains(n));
                }
            } else if j < rl && i >= rl {
                let n = keys_of(all)[j];
                assert(keys_of(removed)[j] == n);
                assert(keys_of(removed).contains(n));
                if keys_of(all)[i] == n {
                    assert(keys_of(added)[i - rl] == n);
                    assert(keys_of(added).contains(n));
                }
            } else if i < rl && j < rl {
                assert(keys_of(removed)[i] != keys_of(removed)[j]);
            } else {
                assert(keys_of(added)[i - rl] != keys_of(added)[j - rl]);
            }
        }
    }
    lemma_insert_all_distinct(all);
}

/// The names of the CPUs of a difference.
pub open spec fn diff_names(d: Seq<(Seq<char>, CpuTime, CpuSoftIrqs)>) -> Seq<Seq<char>> {
    d.map_values(|e: (Seq<char>, CpuTime, CpuSoftIrqs)| e.0)
}

proof fn lemma_diff_names(now: Seq<CpuStatView>, last: Seq<CpuStatView>, k: int)
    requires
        0 <= k <= last.len(),
    ensures
        diff_names(diffs_upto(now, last, k)).no_duplicates(),
        forall|n: Seq<char>|
            #[trigger] diff_names(diffs_upto(now, last, k)).contains(n) <==> last_index(now, n) is Some
                && exists|i: int| 0 <= i < k && is_last(last, i) && last[i].name == n,
    decreases k,
{
    if k > 0 {
        lemma_diff_names(now, last, k - 1);
        let d0 = diffs_upto(now, last, k - 1);
        let d = diffs_upto(now, last, k);
        let n = last[k - 1].name;
        if is_last(last, k - 1) && last_index(now, n) is Some {
            lemma_last_index(now, n);
            assert(diff_names(d) =~= diff_names(d0).push(n));
            assert(!diff_names(d0).contains(n)) by {
                if diff_names(d0).contains(n) {
                    let i = choose|i: int| 0 <= i < k - 1 && is_last(last, i) && last[i].name == n;
                    assert(last[k - 1].name != last[i].name);
                }
            }
            assert forall|m: Seq<char>|
                #[trigger] diff_names(d).contains(m) <==> last_index(now, m) is Some && exists|i: int|
                    0 <= i < k && is_last(last, i) && last[i].name == m by {
                if m != n {
                    if diff_names(d).contains(m) {
                        let j = choose|j: int| 0 <= j < diff_names(d).len() && diff_names(d)[j] == m;
                        assert(diff_names(d0)[j] == m);
                    }
                    if diff_names(d0).contains(m) {
                        let j = choose|j: int| 0 <= j < diff_names(d0).len() && diff_names(d0)[j] == m;
                        assert(diff_names(d)[j] == m);
                    }
                } else {
                    assert(diff_names(d)[d0.len() as int] == n);
                }
            }
        } else {
            assert(d == d0);
            assert forall|m: Seq<char>|
                #[trigger] diff_names(d).contains(m) <==> last_index(now, m) is Some && exists|i: int|
                    0 <= i < k && is_last(last, i) && last[i].name == m by {
                if last_index(now, m) is Some && exists|i: int|
                    0 <= i < k && is_last(last, i) && last[i].name == m {
                    let i = choose|i: int| 0 <= i < k && is_last(last, i) && last[i].name == m;
                    if i == k - 1 {
                        assert(!is_last(last, k - 1) || last_index(now, n) is None);
                    }
                }
            }
        }
    }
}

/// Comparing two samples accounts for every CPU once: each CPU found in
/// both samples has one difference, and each CPU of only one sample is in
/// the change table; no CPU is both.
pub proof fn law_every_cpu_compared_or_reported(now: Seq<CpuStatView>, last: Seq<CpuStatView>, n: Seq<char>)
    ensures
        ({
            let d = diffs_upto(now, last, last.len() as int);
            let removed = changes_upto(last, now, last.len() as int, "removed"@);
            let added = changes_upto(now, last, now.len() as int, "added"@);
            &&& diff_names(d).no_duplicates()
            &&& diff_names(d).contains(n) <==> (last_index(now, n) is Some && last_index(last, n) is Some)
            &&& keys_of(removed + added).contains(n) <==> (last_index(now, n) is Some) != (last_index(
                last,
                n,
            ) is Some)
        }),
{
    let d = diffs_upto(now, last, last.len() as int);
    let removed = changes_upto(last, now, last.len() as int, "removed"@);
    let added = changes_upto(now, last, now.len() as int, "added"@);
    lemma_diff_names(now, last, last.len() as int);
    lemma_changes_names(last, now, "removed"@, last.len() as int);
    lemma_changes_names(now, last, "added"@, now.len() as int);
    lemma_last_index(last, n);
    lemma_last_index(now, n);
    if let Some(j) = last_index(last, n) {
        assert(is_last(last, j) && last[j].name == n);
    }
    assert(keys_of(removed + added) =~= keys_of(removed) + keys_of(added));
    if keys_of(removed + added).contains(n) {
        let j = choose|j: int| 0 <= j < keys_of(removed + added).len() && keys_of(removed + added)[j] == n;
        if j < keys_of(removed).len() {
            assert(keys_of(removed)[j] == n);
            assert(keys_of(removed).contains(n));
            let i = choose|i: int| 0 <= i < last.len() && is_last(last, i) && last[i].name == n;
        } else {
            assert(keys_of(added)[j - keys_of(removed).len()] == n);
            assert(keys_of(added).contains(n));
            let i = choose|i: int| 0 <= i < now.len() && is_last(now, i) && now[i].name == n;
        }
    }
    match (last_index(now, n), last_index(last, n)) {
        (Some(j), None) => {
            lemma_changes_member(now, last, "added"@, now.len() as int, j);
            let q = keys_of(added).index_of(n);
            assert(keys_of(removed + added)[keys_of(removed).len() + q] == n);
        },
        (None, Some(j)) => {
            lemma_changes_member(last, now, "removed"@, last.len() as int, j);
            let q = keys_of(removed).index_of(n);
            assert(keys_of(removed + added)[q] == n);
        },
        _ => {},
    }
}

proof fn lemma_changes_member(from: Seq<CpuStatView>, other: Seq<CpuStatView>, tag: Seq<char>, k: int, j: int)
    requires
        0 <= j < k <= from.len(),
        is_last(from, j),
        last_index(other, from[j].name) is None,
    ensures
        keys_of(changes_upto(from, other, k, tag)).contains(from[j].name),
    decreases k,
{
    let c = changes_upto(from, other, k, tag);
    if j < k - 1 {
        lemma_changes_member(from, other, tag, k - 1, j);
        let c0 = changes_upto(from, other, k - 1, tag);
        let q = keys_of(c0).index_of(from[j].name);
        if is_last(from, k - 1) && last_index(other, from[k - 1].name) is None {
            assert(c == c0.push((from[k - 1].name, tag)));
            assert(keys_of(c)[q] == from[j].name);
        } else {
            assert(c == c0);
        }
    } else {
        let c0 = changes_upto(from, other, k - 1, tag);
        assert(c == c0.push((from[j].name, tag)));
        assert(keys_of(c)[c0.len() as int] == from[j].name);
    }
}

/// The numbers of a list of items, item lists joined.
pub open spec fn join_values(a: Option<Seq<usize>>, b: Option<Seq<usize>>) -> Option<Seq<usize>> {
    match (a, b) {
        (Some(x), Some(y)) => Some(x + y),
        _ => None,
    }
}

proof fn lemma_items_concat(a: Seq<Seq<char>>, b: Seq<Seq<char>>)
    ensures
        range_items_values(a + b) == join_values(range_items_values(a), range_items_values(b)),
    decreases b.len(),
{
    if b.len() == 0 {
        assert(a + b =~= a);
        if let Some(x) = range_items_values(a) {
            assert(x + Seq::<usize>::empty() =~= x);
        }
    } else {
        let b0 = b.drop_last();
        lemma_items_concat(a, b0);
        assert((a + b).drop_last() =~= a + b0);
        assert((a + b).last() == b.last());
        match (range_items_values(a), range_items_values(b0), range_item_values(b.last())) {
            (Some(x), Some(y), Some(z)) => {
                assert(x + y + z =~= x + (y + z));
            },
            _ => {},
        }
    }
}

/// A range list joined to another by a comma stands for the numbers of the
/// first, then those of the second.
pub proof fn law_range_lists_concatenate(s1: Seq<char>, s2: Seq<char>)
    ensures
        range_list_values(s1 + seq![','] + s2) == join_values(
            range_list_values(s1),
            range_list_values(s2),
        ),
{
    lemma_split_concat(s1, ',', s2, char_is(','));
    lemma_items_concat(split_char(s1, ','), split_char(s2, ','));
}

/// The lines of the file written for a run (the text is these lines, each
/// followed by a newline).
pub open spec fn stats_file_lines(timestamp: i64, cpujson: Seq<char>, ctxt: usize, processes: usize) -> Seq<Seq<char>> {
    seq![
        "cputime "@ + int_text(timestamp as int),
        "cpujson "@ + cpujson,
        "ctxt "@ + int_text(ctxt as int),
        "processes "@ + int_text(processes as int),
    ]
}

proof fn lemma_keyword_line(kw: Seq<char>, x: Seq<char>)
    requires
        kw.len() > 0,
        x.len() > 0,
        forall|i: int| 0 <= i < kw.len() ==> !is_ws(#[trigger] kw[i]),
        forall|i: int| 0 <= i < x.len() ==> !is_ws(#[trigger] x[i]),
    ensures
        words(kw + seq![' '] + x) == seq![kw, x],
        starts_with(kw + seq![' '] + x, kw),
{
    let l = kw + seq![' '] + x;
    lemma_split_concat(kw, ' ', x, ws_sep());
    assert forall|i: int| 0 <= i < kw.len() implies !(ws_sep())(#[trigger] kw[i]) by {}
    assert forall|i: int| 0 <= i < x.len() implies !(ws_sep())(#[trigger] x[i]) by {}
    lemma_split_none(kw, ws_sep());
    lemma_split_none(x, ws_sep());
    let p = seq![kw, x];
    assert(split_by(l, ws_sep()) =~= p);
    assert(p.drop_last() =~= seq![kw]);
    assert(seq![kw].drop_last() =~= Seq::<Seq<char>>::empty());
    assert(nonempty(Seq::<Seq<char>>::empty()) == Seq::<Seq<char>>::empty());
    assert(nonempty(seq![kw]) =~= seq![kw]);
    assert(l.take(kw.len() as int) =~= kw);
}

proof fn lemma_number_word(v: int)
    ensures
        int_text(v).len() > 0,
        forall|i: int| 0 <= i < int_text(v).len() ==> !is_ws(#[trigger] int_text(v)[i]),
{
    lemma_int_text_chars(v);
    assert forall|i: int| 0 <= i < int_text(v).len() implies !is_ws(#[trigger] int_text(v)[i]) by {
        assert(is_digit(int_text(v)[i]) || int_text(v)[i] == '-');
    }
}

/// A line "keyword value" whose value is a number written out: its words
/// are the keyword and the number, and the number reads back as an `i64`
/// when it fits one.
proof fn lemma_number_line(kw: Seq<char>, v: int)
    requires
        kw.len() > 0,
        forall|i: int| 0 <= i < kw.len() ==> !is_ws(#[trigger] kw[i]),
        i64::MIN <= v <= i64::MAX,
    ensures
        words(kw + seq![' '] + int_text(v)) == seq![kw, int_text(v)],
        starts_with(kw + seq![' '] + int_text(v), kw),
        crate::history::field_i64(kw + seq![' '] + int_text(v)) == Some(v as i64),
{
    lemma_number_word(v);
    lemma_int_text_reads_back(v, true);
    lemma_keyword_line(kw, int_text(v));
}

proof fn lemma_literals()
    ensures
        "cputime "@ == "cputime"@ + seq![' '],
        "cpujson "@ == "cpujson"@ + seq![' '],
        "ctxt "@ == "ctxt"@ + seq![' '],
        "processes "@ == "processes"@ + seq![' '],
        "cputime"@.len() == 7 && "cputime"@[3] == 't' && "cputime"@[1] == 'p' && "cputime"@[0] == 'c',
        "cpujson"@.len() == 7 && "cpujson"@[3] == 'j' && "cpujson"@[1] == 'p' && "cpujson"@[0] == 'c',
        "ctxt"@.len() == 4 && "ctxt"@[1] == 't' && "ctxt"@[0] == 'c',
        "processes"@.len() == 9 && "processes"@[0] == 'p',
        forall|i: int| 0 <= i < "cputime"@.len() ==> !is_ws(#[trigger] "cputime"@[i]),
        forall|i: int| 0 <= i < "cpujson"@.len() ==> !is_ws(#[trigger] "cpujson"@[i]),
        forall|i: int| 0 <= i < "ctxt"@.len() ==> !is_ws(#[trigger] "ctxt"@[i]),
        forall|i: int| 0 <= i < "processes"@.len() ==> !is_ws(#[trigger] "processes"@[i]),
{
    reveal_strlit("cputime ");
    reveal_strlit("cputime");
    reveal_strlit("cpujson ");
    reveal_strlit("cpujson");
    reveal_strlit("ctxt ");
    reveal_strlit("ctxt");
    reveal_strlit("processes ");
    reveal_strlit("processes");
    assert("cputime "@ =~= "cputime"@ + seq![' ']);
    assert("cpujson "@ =~= "cpujson"@ + seq![' ']);
    assert("ctxt "@ =~= "ctxt"@ + seq![' ']);
    assert("processes "@ =~= "processes"@ + seq![' ']);
}

/// The file that a run writes reads back, in the next run: the seconds
/// since that run (at least 1), the samples' text, and the rates of context
/// switches and of processes created since then. The counts must fit an
/// `i64` to read back; the text of the samples must be one word.
#[verifier::spinoff_prover]
#[verifier::rlimit(40)]
pub proof fn law_stats_file_reads_back(t0: i64, cpujson: Seq<char>, c0: usize, p0: usize, t1: i64, c1: usize, p1: usize)
    requires
        cpujson.len() > 0,
        forall|i: int| 0 <= i < cpujson.len() ==> !is_ws(#[trigger] cpujson[i]),
        c0 <= i64::MAX,
        p0 <= i64::MAX,
        i64::MIN <= t1 - t0 <= i64::MAX,
    ensures
        ({
            let lines = stats_file_lines(t0, cpujson, c0, p0);
            let e: i64 = if t1 - t0 < 1 {
                1
            } else {
                (t1 - t0) as i64
            };
            &&& stats_file_spec(t0, cpujson, c0, p0) == lines[0] + "\n"@ + lines[1] + "\n"@ + lines[2]
                + "\n"@ + lines[3] + "\n"@
            &&& last_run_upto(lines, t1, c1, p1, 4) == match (
                rate(c1, c0 as i64, e),
                rate(p1, p0 as i64, e),
            ) {
                (Some(rc), Some(rp)) => Some((e, seq![cpujson], rc, rp)),
                _ => None,
            }
        }),
{
    let lines = stats_file_lines(t0, cpujson, c0, p0);
    let e: i64 = if t1 - t0 < 1 {
        1
    } else {
        (t1 - t0) as i64
    };
    lemma_literals();
    assert(stats_file_spec(t0, cpujson, c0, p0) =~= lines[0] + "\n"@ + lines[1] + "\n"@ + lines[2]
        + "\n"@ + lines[3] + "\n"@);
    assert(lines[0] == "cputime"@ + seq![' '] + int_text(t0 as int)) by {
        assert("cputime "@ + int_text(t0 as int) =~= "cputime"@ + seq![' '] + int_text(t0 as int));
    }
    assert(lines[1] == "cpujson"@ + seq![' '] + cpujson) by {
        assert("cpujson "@ + cpujson =~= "cpujson"@ + seq![' '] + cpujson);
    }
    assert(lines[2] == "ctxt"@ + seq![' '] + int_text(c0 as int)) by {
        assert("ctxt "@ + int_text(c0 as int) =~= "ctxt"@ + seq![' '] + int_text(c0 as int));
    }
    assert(lines[3] == "processes"@ + seq![' '] + int_text(p0 as int)) by {
        assert("processes "@ + int_text(p0 as int) =~= "processes"@ + seq![' '] + int_text(p0 as int));
    }
    let s1 = (e, Seq::<Seq<char>>::empty(), 0usize, 0usize);
    assert(last_run_upto(lines, t1, c1, p1, 1) == Some(s1)) by {
        lemma_number_line("cputime"@, t0 as int);
        assert(last_run_upto(lines, t1, c1, p1, 0) == Some((0i64, Seq::<Seq<char>>::empty(), 0usize, 0usize)));
    }
    let s2 = (e, seq![cpujson], 0usize, 0usize);
    assert(last_run_upto(lines, t1, c1, p1, 2) == Some(s2)) by {
        lemma_keyword_line("cpujson"@, cpujson);
        assert(!starts_with(lines[1], "cputime"@)) by {
            assert(lines[1][3] == 'j');
        }
        assert(Seq::<Seq<char>>::empty().push(cpujson) =~= seq![cpujson]);
    }
    match rate(c1, c0 as i64, e) {
        None => {
            assert(last_run_upto(lines, t1, c1, p1, 3) is None) by {
                lemma_number_line("ctxt"@, c0 as int);
                assert(!starts_with(lines[2], "cputime"@)) by {
                    assert(lines[2][1] == 't');
                }
                assert(!starts_with(lines[2], "cpujson"@)) by {
                    assert(lines[2][1] == 't');
                }
            }
        },
        Some(rc) => {
            let s3 = (e, seq![cpujson], rc, 0usize);
            assert(last_run_upto(lines, t1, c1, p1, 3) == Some(s3)) by {
                lemma_number_line("ctxt"@, c0 as int);
                assert(!starts_with(lines[2], "cputime"@)) by {
                    assert(lines[2][1] == 't');
                }
                assert(!starts_with(lines[2], "cpujson"@)) by {
                    assert(lines[2][1] == 't');
                }
            }
            assert(last_run_upto(lines, t1, c1, p1, 4) == match rate(p1, p0 as i64, e) {
                Some(rp) => Some((e, seq![cpujson], rc, rp)),
                None => None,
            }) by {
                lemma_number_line("processes"@, p0 as int);
                assert(!starts_with(lines[3], "cputime"@)) by {
                    assert(lines[3][0] == 'p');
                }
                assert(!starts_with(lines[3], "cpujson"@)) by {
                    assert(lines[3][0] == 'p');
                }
                assert(!starts_with(lines[3], "ctxt"@)) by {
                    assert(lines[3][0] == 'p');
                }
            }
        },
    }
}

/// The value of an optional count, 0 when absent.
pub open spec fn count_or_zero(o: Option<u32>) -> int {
    match o {
        Some(x) => x as int,
        None => 0,
    }
}

/// The sum of the counts of interrupt `k` among the first `m` entries of
/// one CPU's counts.
pub open spec fn entry_sum(row: Assoc<u32>, k: Seq<char>, m: int) -> int
    decreases m,
{
    if m <= 0 {
        0
    } else {
        entry_sum(row, k, m - 1) + if row[m - 1].0 == k {
            row[m - 1].1 as int
        } else {
            0
        }
    }
}

/// Whether interrupt `k` is among the first `m` entries of one CPU's counts.
pub open spec fn entry_has(row: Assoc<u32>, k: Seq<char>, m: int) -> bool
    decreases m,
{
    m > 0 && (entry_has(row, k, m - 1) || row[m - 1].0 == k)
}

/// The sum of the counts of interrupt `k` over the first `n` CPUs of `t`.
pub open spec fn column_sum(t: Assoc<Assoc<u32>>, k: Seq<char>, n: int) -> int
    decreases n,
{
    if n <= 0 {
        0
    } else {
        column_sum(t, k, n - 1) + entry_sum(t[n - 1].1, k, t[n - 1].1.len() as int)
    }
}

/// Whether interrupt `k` is counted on one of the first `n` CPUs of `t`.
pub open spec fn column_has(t: Assoc<Assoc<u32>>, k: Seq<char>, n: int) -> bool
    decreases n,
{
    n > 0 && (column_has(t, k, n - 1) || entry_has(t[n - 1].1, k, t[n - 1].1.len() as int))
}

proof fn lemma_add_row(tot: Assoc<u32>, row: Assoc<u32>, m: int)
    requires
        0 <= m <= row.len(),
        add_row(tot, row, m) is Some,
    ensures
        forall|k: Seq<char>|
            #![trigger assoc_get(add_row(tot, row, m)->0, k)]
            {
                let g = assoc_get(add_row(tot, row, m)->0, k);
                &&& (g is Some <==> assoc_get(tot, k) is Some || entry_has(row, k, m))
                &&& count_or_zero(g) == count_or_zero(assoc_get(tot, k)) + entry_sum(row, k, m)
            },
    decreases m,
{
    if m > 0 {
        lemma_add_row(tot, row, m - 1);
        let t2 = add_row(tot, row, m - 1)->0;
        let (key, v) = row[m - 1];
        let t3 = add_row(tot, row, m)->0;
        assert(add_count(t2, key, v) == Some(t3));
        assert forall|k: Seq<char>|
            #![trigger assoc_get(add_row(tot, row, m)->0, k)]
            {
                let g = assoc_get(add_row(tot, row, m)->0, k);
                &&& (g is Some <==> assoc_get(tot, k) is Some || entry_has(row, k, m))
                &&& count_or_zero(g) == count_or_zero(assoc_get(tot, k)) + entry_sum(row, k, m)
            } by {
            assert(assoc_get(t2, k) == assoc_get(add_row(tot, row, m - 1)->0, k));
            match assoc_get(t2, key) {
                Some(x) => {
                    lemma_assoc_set_get(t2, key, (x + v) as u32, k);
                },
                None => {
                    lemma_assoc_set_get(t2, key, v, k);
                },
            }
        }
    }
}

proof fn lemma_totals(t: Assoc<Assoc<u32>>, n: int)
    requires
        0 <= n <= t.len(),
        totals_upto(t, n) is Some,
    ensures
        forall|k: Seq<char>|
            #![trigger assoc_get(totals_upto(t, n)->0, k)]
            {
                let g = assoc_get(totals_upto(t, n)->0, k);
                &&& (g is Some <==> column_has(t, k, n))
                &&& count_or_zero(g) == column_sum(t, k, n)
            },
    decreases n,
{
    if n > 0 {
        let tot = totals_upto(t, n - 1)->0;
        lemma_totals(t, n - 1);
        let row = t[n - 1].1;
        lemma_add_row(tot, row, row.len() as int);
        assert forall|k: Seq<char>|
            #![trigger assoc_get(totals_upto(t, n)->0, k)]
            {
                let g = assoc_get(totals_upto(t, n)->0, k);
                &&& (g is Some <==> column_has(t, k, n))
                &&& count_or_zero(g) == column_sum(t, k, n)
            } by {
            assert(assoc_get(tot, k) == assoc_get(totals_upto(t, n - 1)->0, k));
            assert(assoc_get(totals_upto(t, n)->0, k) == assoc_get(add_row(tot, row, row.len() as int)->0, k));
        }
    } else {
        assert forall|k: Seq<char>|
            #![trigger assoc_get(totals_upto(t, n)->0, k)]
            {
                let g = assoc_get(totals_upto(t, n)->0, k);
                &&& (g is Some <==> column_has(t, k, n))
                &&& count_or_zero(g) == column_sum(t, k, n)
            } by {
            assert(totals_upto(t, n)->0 =~= Seq::<(Seq<char>, u32)>::empty());
        }
    }
}

/// The counts under "cpu" are the totals of the CPUs of the file: an
/// interrupt has a total exactly when some CPU counts it, and the total is
/// the sum of its counts over all CPUs.
pub proof fn law_softirq_totals(lines: Seq<Seq<char>>, k: Seq<char>)
    requires
        softirqs_of(lines) is Some,
    ensures
        ({
            let t = fill_lines(lines, header_names(lines[0]), lines.len() as int)->0;
            let g = count_of(softirqs_of(lines)->0, "cpu"@, k);
            &&& (g is Some <==> column_has(t, k, t.len() as int))
            &&& count_or_zero(g) == column_sum(t, k, t.len() as int)
        }),
{
    let t = fill_lines(lines, header_names(lines[0]), lines.len() as int)->0;
    let tot = totals_upto(t, t.len() as int)->0;
    lemma_totals(t, t.len() as int);
    lemma_assoc_set_get(t, "cpu"@, tot, "cpu"@);
    assert(assoc_get(tot, k) == assoc_get(totals_upto(t, t.len() as int)->0, k));
}

proof fn lemma_insert_fresh(es: Seq<(Seq<char>, Seq<char>)>, k: Seq<char>, v: Seq<char>)
    requires
        forall|i: int| 0 <= i < es.len() ==> (#[trigger] es[i]).0.len() != k.len(),
    ensures
        insert_entry(es, k, v) == es.push((k, v)),
{
    assert(!keys_of(es).contains(k)) by {
        if keys_of(es).contains(k) {
            let i = choose|i: int| 0 <= i < keys_of(es).len() && keys_of(es)[i] == k;
            assert(es[i].0 == k);
        }
    }
    lemma_drop_absent_key(es, k);
}

/// The process summary lists, in this order, the context switches per
/// second, the processes created per second, the processes running and the
/// processes blocked; the system summary lists the sockets, the online CPUs
/// with their physical cores ("Core") and logical cores ("Thread"), and the
/// temperature.
pub proof fn law_summary_tables(
    rate_ctxt: usize,
    rate_processes: usize,
    running: usize,
    blocked: usize,
    sockets: i64,
    online: usize,
    physical: usize,
    logical: usize,
    temperature: Seq<char>,
)
    ensures
        process_table_spec(rate_ctxt, rate_processes, running, blocked) == seq![
            ("Context switch/s"@, int_text(rate_ctxt as int)),
            ("Processes created/s"@, int_text(rate_processes as int)),
            ("Processes running"@, int_text(running as int)),
            ("Processes bloacked/s"@, int_text(blocked as int)),
        ],
        system_table_spec(sockets, online, physical, logical, temperature) == seq![
            ("Socket(s)"@, int_text(sockets as int)),
            (
                "CPU(s)"@,
                int_text(online as int) + " ("@ + int_text(physical as int) + " Core / "@ + int_text(
                    logical as int,
                ) + " Thread)"@,
            ),
            ("Temp."@, temperature),
        ],
{
    reveal_strlit("Context switch/s");
    reveal_strlit("Processes created/s");
    reveal_strlit("Processes running");
    reveal_strlit("Processes bloacked/s");
    reveal_strlit("Socket(s)");
    reveal_strlit("CPU(s)");
    reveal_strlit("Temp.");
    let e: Seq<(Seq<char>, Seq<char>)> = seq![];
    let p0 = ("Context switch/s"@, int_text(rate_ctxt as int));
    let p1 = ("Processes created/s"@, int_text(rate_processes as int));
    let p2 = ("Processes running"@, int_text(running as int));
    let p3 = ("Processes bloacked/s"@, int_text(blocked as int));
    lemma_insert_fresh(e, p0.0, p0.1);
    lemma_insert_fresh(seq![p0], p1.0, p1.1);
    lemma_insert_fresh(seq![p0, p1], p2.0, p2.1);
    lemma_insert_fresh(seq![p0, p1, p2], p3.0, p3.1);
    assert(e.push(p0) =~= seq![p0]);
    assert(seq![p0].push(p1) =~= seq![p0, p1]);
    assert(seq![p0, p1].push(p2) =~= seq![p0, p1, p2]);
    assert(seq![p0, p1, p2].push(p3) =~= seq![p0, p1, p2, p3]);
    let cpus = int_text(online as int) + " ("@ + int_text(physical as int) + " Core / "@ + int_text(
        logical as int,
    ) + " Thread)"@;
    let q0 = ("Socket(s)"@, int_text(sockets as int));
    let q1 = ("CPU(s)"@, cpus);
    let q2 = ("Temp."@, temperature);
    lemma_insert_fresh(e, q0.0, q0.1);
    lemma_insert_fresh(seq![q0], q1.0, q1.1);
    lemma_insert_fresh(seq![q0, q1], q2.0, q2.1);
    assert(e.push(q0) =~= seq![q0]);
    assert(seq![q0].push(q1) =~= seq![q0, q1]);
    assert(seq![q0, q1].push(q2) =~= seq![q0, q1, q2]);
}

} // verus!

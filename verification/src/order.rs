//! The order in which CPUs are listed: the totals line "cpu" first, then
//! the CPUs by number ("cpu2" before "cpu10").
use vstd::prelude::*;

use crate::stat::{stats_view, CpuStat, CpuStatView};
use crate::text::{chars_eq_str, chars_of, parse_i32, parse_i32_spec, sub_chars};

verus! {

/// Whether "cpu" occurs in `s` at position `i`.
pub open spec fn cpu_at(s: Seq<char>, i: int) -> bool {
    0 <= i && i + 3 <= s.len() && s[i] == 'c' && s[i + 1] == 'p' && s[i + 2] == 'u'
}

/// The first position at or after `from` where "cpu" occurs.
pub open spec fn next_cpu(s: Seq<char>, from: int) -> Option<int>
    decreases s.len() - from,
{
    if from < 0 || from + 3 > s.len() {
        None
    } else if cpu_at(s, from) {
        Some(from)
    } else {
        next_cpu(s, from + 1)
    }
}

/// `name.split("cpu").nth(1)`: the text between the first "cpu" of the name
/// and the next one (or the end).
pub open spec fn number_part(name: Seq<char>) -> Option<Seq<char>> {
    match next_cpu(name, 0) {
        None => None,
        Some(i) => match next_cpu(name, i + 3) {
            Some(j) => Some(name.subrange(i + 3, j)),
            None => Some(name.subrange(i + 3, name.len() as int)),
        },
    }
}

/// The rank of a CPU name: the totals line "cpu" before all, then the
/// number after "cpu" (as `i32`; a name whose number does not read as one
/// comes last, with `i32::MAX`); `None` for a name without "cpu".
pub open spec fn sort_key(name: Seq<char>) -> Option<int> {
    if name == "cpu"@ {
        Some(i32::MIN - 1)
    } else {
        match number_part(name) {
            None => None,
            Some(t) => Some(
                match parse_i32_spec(t) {
                    Some(v) => v as int,
                    None => i32::MAX as int,
                },
            ),
        }
    }
}

/// The rank of a sample; a name without "cpu" ranks after all others.
pub open spec fn key_of(s: CpuStatView) -> int {
    match sort_key(s.name) {
        Some(k) => k,
        None => i32::MAX + 1,
    }
}

/// Every sample has a rank.
pub open spec fn all_ranked(v: Seq<CpuStatView>) -> bool {
    forall|i: int| 0 <= i < v.len() ==> (#[trigger] sort_key(v[i].name)) is Some
}

/// The samples can be put in order: every name has a rank, or at most one
/// name is not "cpu" (so that a name without a rank is never set against
/// another name but "cpu").
pub open spec fn sortable(v: Seq<CpuStatView>) -> bool {
    ||| all_ranked(v)
    ||| forall|i: int, j: int|
        0 <= i < j < v.len() ==> (#[trigger] v[i]).name == "cpu"@ || (#[trigger] v[j]).name == "cpu"@
}

/// `r` lists the samples of `v` by rank, those of equal rank in the order
/// of `v`: `p` gives, for each position of `r`, the position in `v` it
/// comes from.
pub open spec fn stable_sorted_by(v: Seq<CpuStatView>, r: Seq<CpuStatView>, p: Seq<int>) -> bool {
    &&& r.len() == v.len()
    &&& p.len() == v.len()
    &&& forall|i: int| 0 <= i < p.len() ==> 0 <= #[trigger] p[i] < v.len()
    &&& forall|i: int, j: int| 0 <= i < j < p.len() ==> #[trigger] p[i] != #[trigger] p[j]
    &&& forall|i: int| 0 <= i < r.len() ==> #[trigger] r[i] == v[p[i]]
    &&& forall|i: int, j: int|
        0 <= i < j < r.len() ==> key_of(#[trigger] r[i]) <= key_of(#[trigger] r[j])
    &&& forall|i: int, j: int|
        0 <= i < j < r.len() && key_of(#[trigger] r[i]) == key_of(#[trigger] r[j]) ==> p[i] < p[j]
}

/// The first position at or after `from` where "cpu" occurs.
fn find_cpu(v: &Vec<char>, from: usize) -> (r: Option<usize>)
    ensures
        match r {
            Some(i) => next_cpu(v@, from as int) == Some(i as int) && i + 3 <= v@.len(),
            None => next_cpu(v@, from as int) is None,
        },
    decreases v@.len() - from,
{
    if from > v.len() || v.len() - from < 3 {
        return None;
    }
    if v[from] == 'c' && v[from + 1] == 'p' && v[from + 2] == 'u' {
        return Some(from);
    }
    find_cpu(v, from + 1)
}

/// The rank of a CPU name, as `i64`.
pub fn cpu_sort_key(name: &String) -> (r: Option<i64>)
    ensures
        match r {
            Some(k) => sort_key(name@) == Some(k as int),
            None => sort_key(name@) is None,
        },
{
    let v = chars_of(name.as_str());
    if chars_eq_str(&v, "cpu") {
        return Some(i32::MIN as i64 - 1);
    }
    match find_cpu(&v, 0) {
        None => None,
        Some(i) => {
            let end = match find_cpu(&v, i + 3) {
                Some(j) => j,
                None => v.len(),
            };
            proof {
                lemma_next_cpu_after(v@, i as int + 3);
            }
            let t = sub_chars(&v, i + 3, end);
            match parse_i32(&t) {
                Some(x) => Some(x as i64),
                None => Some(i32::MAX as i64),
            }
        },
    }
}

proof fn lemma_next_cpu_after(s: Seq<char>, from: int)
    requires
        0 <= from <= s.len(),
    ensures
        next_cpu(s, from) matches Some(j) ==> from <= j && j + 3 <= s.len(),
    decreases s.len() - from,
{
    if from + 3 <= s.len() && !cpu_at(s, from) {
        lemma_next_cpu_after(s, from + 1);
    }
}

/// Lists the samples by rank: the totals line "cpu" first, then the CPUs
/// by number (a lone name without "cpu" last); samples of equal rank keep
/// their order.
pub fn sort_cpu_stats(v: &mut Vec<CpuStat>)
    requires
        sortable(stats_view(old(v)@)),
    ensures
        exists|p: Seq<int>| stable_sorted_by(stats_view(old(v)@), stats_view(final(v)@), p),
{
    let ghost v0 = stats_view(v@);
    let n = v.len();
    let mut keys: Vec<i64> = Vec::new();
    for i in 0..n
        invariant
            n == v@.len(),
            v0 == stats_view(v@),
            keys@.len() == i,
            forall|k: int| 0 <= k < i ==> #[trigger] keys@[k] == key_of(v0[k]),
    {
        assert(v0[i as int] == v@[i as int]@);
        match cpu_sort_key(&v[i].name) {
            Some(k) => keys.push(k),
            None => keys.push(i32::MAX as i64 + 1),
        }
    }
    let ghost mut p: Seq<int> = Seq::new(n as nat, |i: int| i);
    assert(stable_sorted_partial(v0, stats_view(v@), p, keys@, 0));
    for i in 0..n
        invariant
            n == v@.len(),
            stable_sorted_partial(v0, stats_view(v@), p, keys@, i as int),
    {
        let mut j = i;
        while j > 0 && keys[j - 1] > keys[j]
            invariant
                0 <= j <= i < n == v@.len(),
                moving_partial(v0, stats_view(v@), p, keys@, i as int, j as int),
            decreases j,
        {
            let ghost r = stats_view(v@);
            let ghost k = keys@;
            let x = v.remove(j);
            v.insert(j - 1, x);
            let kj = keys[j];
            let kj1 = keys[j - 1];
            keys.set(j - 1, kj);
            keys.set(j, kj1);
            proof {
                let q = p.update(j - 1, p[j as int]).update(j as int, p[j - 1]);
                assert(stats_view(v@) =~= r.update(j - 1, r[j as int]).update(j as int, r[j - 1]));
                lemma_swap_keeps(v0, r, p, k, i as int, j as int);
                p = q;
            }
            j = j - 1;
        }
        proof {
            lemma_moving_done(v0, stats_view(v@), p, keys@, i as int, j as int);
        }
    }
    proof {
        let r = stats_view(v@);
        let k = keys@;
        assert forall|a: int, b: int| 0 <= a < b < r.len() implies key_of(#[trigger] r[a]) <= key_of(
            #[trigger] r[b],
        ) by {
            assert(k[a] == key_of(r[a]) && k[b] == key_of(r[b]));
            assert(k[a] <= k[b]);
        }
        assert forall|a: int, b: int|
            0 <= a < b < r.len() && key_of(#[trigger] r[a]) == key_of(#[trigger] r[b]) implies p[a]
            < p[b] by {
            assert(k[a] == key_of(r[a]) && k[b] == key_of(r[b]));
        }
        assert(stable_sorted_by(v0, r, p));
    }
}

/// After the first `i` rounds of insertion: `r` is `v` rearranged by `p`,
/// `keys` are the ranks of `r`, the first `i` samples are in order of rank,
/// and samples of equal rank keep their order.
pub open spec fn stable_sorted_partial(v: Seq<CpuStatView>, r: Seq<CpuStatView>, p: Seq<int>, keys: Seq<i64>, i: int) -> bool {
    &&& r.len() == v.len()
    &&& p.len() == v.len()
    &&& keys.len() == v.len()
    &&& 0 <= i <= v.len()
    &&& forall|a: int| 0 <= a < p.len() ==> 0 <= #[trigger] p[a] < v.len()
    &&& forall|a: int, b: int| 0 <= a < b < p.len() ==> #[trigger] p[a] != #[trigger] p[b]
    &&& forall|a: int| 0 <= a < r.len() ==> #[trigger] r[a] == v[p[a]]
    &&& forall|a: int| 0 <= a < r.len() ==> #[trigger] keys[a] == key_of(r[a])
    &&& forall|a: int, b: int| 0 <= a < b < i ==> #[trigger] keys[a] <= #[trigger] keys[b]
    &&& forall|a: int, b: int|
        0 <= a < b < r.len() && #[trigger] keys[a] == #[trigger] keys[b] ==> p[a] < p[b]
}

/// During round `i`, with the sample being inserted now at `j`: the samples
/// before `j` and those from `j + 1` to `i` are in order of rank, those
/// before `j` rank no higher than those after it, and the sample at `j`
/// ranks below those after it.
pub open spec fn moving_partial(v: Seq<CpuStatView>, r: Seq<CpuStatView>, p: Seq<int>, keys: Seq<i64>, i: int, j: int) -> bool {
    &&& r.len() == v.len()
    &&& p.len() == v.len()
    &&& keys.len() == v.len()
    &&& 0 <= j <= i < v.len()
    &&& forall|a: int| 0 <= a < p.len() ==> 0 <= #[trigger] p[a] < v.len()
    &&& forall|a: int, b: int| 0 <= a < b < p.len() ==> #[trigger] p[a] != #[trigger] p[b]
    &&& forall|a: int| 0 <= a < r.len() ==> #[trigger] r[a] == v[p[a]]
    &&& forall|a: int| 0 <= a < r.len() ==> #[trigger] keys[a] == key_of(r[a])
    &&& forall|a: int, b: int| 0 <= a < b <= i && a != j && b != j ==> #[trigger] keys[a] <= #[trigger] keys[b]
    &&& forall|b: int| j < b <= i ==> keys[j] < #[trigger] keys[b]
    &&& forall|a: int, b: int|
        0 <= a < b < r.len() && #[trigger] keys[a] == #[trigger] keys[b] ==> p[a] < p[b]
}

proof fn lemma_swap_keeps(v: Seq<CpuStatView>, r: Seq<CpuStatView>, p: Seq<int>, keys: Seq<i64>, i: int, j: int)
    requires
        moving_partial(v, r, p, keys, i, j),
        j > 0,
        keys[j - 1] > keys[j],
    ensures
        moving_partial(
            v,
            r.update(j - 1, r[j]).update(j, r[j - 1]),
            p.update(j - 1, p[j]).update(j, p[j - 1]),
            keys.update(j - 1, keys[j]).update(j, keys[j - 1]),
            i,
            j - 1,
        ),
{
    let r2 = r.update(j - 1, r[j]).update(j, r[j - 1]);
    let p2 = p.update(j - 1, p[j]).update(j, p[j - 1]);
    let k2 = keys.update(j - 1, keys[j]).update(j, keys[j - 1]);
    let sw = |a: int| if a == j - 1 { j } else if a == j { j - 1 } else { a };
    assert forall|a: int| 0 <= a < r2.len() implies #[trigger] r2[a] == r[sw(a)] && p2[a] == p[sw(a)]
        && k2[a] == keys[sw(a)] by {}
    assert forall|a: int, b: int| 0 <= a < b < p2.len() implies #[trigger] p2[a] != #[trigger] p2[b] by {
        assert(p2[a] == p[sw(a)] && p2[b] == p[sw(b)]);
        if sw(a) < sw(b) {
            assert(p[sw(a)] != p[sw(b)]);
        } else {
            assert(p[sw(b)] != p[sw(a)]);
        }
    }
    assert forall|a: int, b: int|
        0 <= a < b < r2.len() && #[trigger] k2[a] == #[trigger] k2[b] implies p2[a] < p2[b] by {
        assert(k2[a] == keys[sw(a)] && k2[b] == keys[sw(b)]);
        assert(sw(a) < sw(b) || (a == j - 1 && b == j));
        if a == j - 1 && b == j {
            assert(false);
        } else {
            assert(keys[sw(a)] == keys[sw(b)]);
        }
    }
    assert forall|a: int, b: int| 0 <= a < b <= i && a != j - 1 && b != j - 1 implies #[trigger] k2[a]
        <= #[trigger] k2[b] by {
        assert(k2[a] == keys[sw(a)] && k2[b] == keys[sw(b)]);
        if b == j {
            if a < j - 1 {
                assert(keys[a] <= keys[j - 1]);
            }
        } else if a == j {
            assert(keys[j - 1] <= keys[b]);
        }
    }
    assert forall|b: int| j - 1 < b <= i implies k2[j - 1] < #[trigger] k2[b] by {
        assert(k2[b] == keys[sw(b)]);
        if b == j {
        } else {
            assert(keys[j] < keys[b]);
        }
    }
    assert forall|a: int| 0 <= a < r2.len() implies #[trigger] k2[a] == key_of(r2[a]) by {
        assert(k2[a] == keys[sw(a)] && r2[a] == r[sw(a)]);
    }
    assert forall|a: int| 0 <= a < r2.len() implies #[trigger] r2[a] == v[p2[a]] by {
        assert(r2[a] == r[sw(a)] && p2[a] == p[sw(a)]);
    }
    assert forall|a: int| 0 <= a < p2.len() implies 0 <= #[trigger] p2[a] < v.len() by {
        assert(p2[a] == p[sw(a)]);
    }
}

proof fn lemma_moving_done(v: Seq<CpuStatView>, r: Seq<CpuStatView>, p: Seq<int>, keys: Seq<i64>, i: int, j: int)
    requires
        moving_partial(v, r, p, keys, i, j),
        j == 0 || keys[j - 1] <= keys[j],
    ensures
        stable_sorted_partial(v, r, p, keys, i + 1),
{
    assert forall|a: int, b: int| 0 <= a < b < i + 1 implies #[trigger] keys[a] <= #[trigger] keys[b] by {
        if a == j {
            assert(keys[j] < keys[b]);
        } else if b == j {
            if a < j - 1 {
                assert(keys[a] <= keys[j - 1]);
            }
        }
    }
}

} // verus!

//! CPU range lists, as in `/sys/devices/system/cpu/online` ("0-3,6,8-9"),
//! and the online/offline status of every possible CPU.
use vstd::prelude::*;

use crate::text::{
    chars_of, parse_usize, parse_usize_spec, split_at_char, split_char, trim, trim_chars, views,
};

verus! {

/// The numbers `a, a+1, ..., b` (none when `a > b`).
pub open spec fn inclusive_range(a: usize, b: usize) -> Seq<usize> {
    Seq::new(if a <= b { (b - a + 1) as nat } else { 0 }, |i: int| (a + i) as usize)
}

/// What one comma-separated item of a range list stands for: `a-b` is the
/// numbers from `a` to `b`, a single number stands for itself. `None` for an
/// item that the range parser refuses.
pub open spec fn range_item_values(item: Seq<char>) -> Option<Seq<usize>> {
    let parts = split_char(item, '-');
    if (forall|i: int| 0 <= i < parts.len() ==> (#[trigger] parse_usize_spec(parts[i])) is Some) {
        if parts.len() == 2 {
            Some(inclusive_range(parse_usize_spec(parts[0])->0, parse_usize_spec(parts[1])->0))
        } else if parts.len() == 1 {
            Some(seq![parse_usize_spec(parts[0])->0])
        } else {
            None
        }
    } else {
        None
    }
}

/// The numbers that the items stand for, item after item; `None` when one
/// item is refused.
pub open spec fn range_items_values(items: Seq<Seq<char>>) -> Option<Seq<usize>>
    decreases items.len(),
{
    if items.len() == 0 {
        Some(seq![])
    } else {
        match (range_items_values(items.drop_last()), range_item_values(items.last())) {
            (Some(a), Some(b)) => Some(a + b),
            _ => None,
        }
    }
}

/// The numbers that a range list stands for, `None` when it is malformed.
pub open spec fn range_list_values(s: Seq<char>) -> Option<Seq<usize>> {
    range_items_values(split_char(s, ','))
}

/// Appends `a, a+1, ..., b` to `out`.
fn push_inclusive_range(out: &mut Vec<usize>, a: usize, b: usize)
    ensures
        final(out)@ == old(out)@ + inclusive_range(a, b),
{
    if a > b {
        assert(inclusive_range(a, b) =~= Seq::<usize>::empty());
        assert(out@ =~= old(out)@ + inclusive_range(a, b));
        return;
    }
    let mut i: usize = a;
    loop
        invariant
            a <= i <= b,
            out@ == old(out)@ + inclusive_range(a, b).take(i - a),
        decreases b - i,
    {
        out.push(i);
        assert(out@ =~= old(out)@ + inclusive_range(a, b).take(i - a + 1));
        if i == b {
            assert(inclusive_range(a, b).take(i - a + 1) =~= inclusive_range(a, b));
            return;
        }
        i = i + 1;
    }
}

/// The numbers one item stands for, `None` when it is refused.
fn item_values(item: &Vec<char>) -> (r: Option<Vec<usize>>)
    ensures
        match r {
            Some(v) => range_item_values(item@) == Some(v@),
            None => range_item_values(item@) is None,
        },
{
    let parts = split_at_char(item, '-');
    let ghost ps = split_char(item@, '-');
    let mut nums: Vec<usize> = Vec::new();
    for i in 0..parts.len()
        invariant
            views(parts@) == ps,
            ps == split_char(item@, '-'),
            nums@.len() == i,
            forall|j: int| 0 <= j < i ==> parse_usize_spec(ps[j]) == Some(#[trigger] nums@[j]),
    {
        assert(ps[i as int] == parts@[i as int]@);
        match parse_usize(&parts[i]) {
            Some(x) => nums.push(x),
            None => {
                assert(parse_usize_spec(ps[i as int]) is None);
                return None;
            },
        }
    }
    assert(ps.len() == parts@.len());
    assert forall|i: int| 0 <= i < ps.len() implies (#[trigger] parse_usize_spec(ps[i])) is Some by {
        assert(parse_usize_spec(ps[i]) == Some(nums@[i]));
    }
    let mut out: Vec<usize> = Vec::new();
    if parts.len() == 2 {
        push_inclusive_range(&mut out, nums[0], nums[1]);
        assert(out@ =~= inclusive_range(nums@[0], nums@[1]));
        Some(out)
    } else if parts.len() == 1 {
        out.push(nums[0]);
        assert(out@ =~= seq![nums@[0]]);
        Some(out)
    } else {
        None
    }
}

/// The numbers that the range list `s` stands for, or `None` where
/// `parse_range_string` would fail.
pub fn range_values(s: &str) -> (r: Option<Vec<usize>>)
    ensures
        match r {
            Some(v) => range_list_values(s@) == Some(v@),
            None => range_list_values(s@) is None,
        },
{
    let chars = chars_of(s);
    let items = split_at_char(&chars, ',');
    let ghost its = split_char(s@, ',');
    let mut out: Vec<usize> = Vec::new();
    for i in 0..items.len()
        invariant
            views(items@) == its,
            its == split_char(s@, ','),
            range_items_values(its.take(i as int)) == Some(out@),
    {
        assert(its.take(i as int + 1).drop_last() =~= its.take(i as int));
        assert(its[i as int] == items@[i as int]@);
        match item_values(&items[i]) {
            Some(v) => {
                let mut k: usize = 0;
                let ghost before = out@;
                while k < v.len()
                    invariant
                        k <= v@.len(),
                        out@ == before + v@.take(k as int),
                    decreases v@.len() - k,
                {
                    out.push(v[k]);
                    assert(out@ =~= before + v@.take(k as int + 1));
                    k = k + 1;
                }
                assert(v@.take(v@.len() as int) =~= v@);
            },
            None => {
                proof {
                    lemma_items_refused(its, i as int);
                }
                return None;
            },
        }
    }
    assert(its.take(items@.len() as int) =~= its);
    Some(out)
}

proof fn lemma_items_refused(items: Seq<Seq<char>>, i: int)
    requires
        0 <= i < items.len(),
        range_item_values(items[i]) is None,
    ensures
        range_items_values(items) is None,
    decreases items.len(),
{
    if i < items.len() - 1 {
        lemma_items_refused(items.drop_last(), i);
    }
}

/// Parses a CPU range list such as `0-3,6,8-9` into the numbers it stands
/// for, in the order written.
pub fn parse_range_string(range_string: &str) -> (result: Vec<usize>)
    requires
        range_list_values(range_string@) is Some,
    ensures
        result@ == range_list_values(range_string@)->0,
{
    match range_values(range_string) {
        Some(v) => v,
        None => Vec::new(),
    }
}

/// The first and last CPU of the `possible` file's line ("0-7"): the first
/// two `-`-separated numbers of the trimmed line.
pub open spec fn possible_bounds(line: Seq<char>) -> Option<(usize, usize)> {
    let parts = split_char(trim(line), '-');
    if parts.len() >= 2 && parse_usize_spec(parts[0]) is Some && parse_usize_spec(parts[1]) is Some {
        Some((parse_usize_spec(parts[0])->0, parse_usize_spec(parts[1])->0))
    } else {
        None
    }
}

/// The first and last CPU named by the `possible` line, or `None` where
/// `get_cpu_status` would fail on it.
pub fn possible_range(line: &str) -> (r: Option<(usize, usize)>)
    ensures
        r == possible_bounds(line@),
{
    let chars = chars_of(line);
    let t = trim_chars(&chars);
    let parts = split_at_char(&t, '-');
    if parts.len() < 2 {
        return None;
    }
    assert(parts@[0]@ == split_char(trim(line@), '-')[0]);
    assert(parts@[1]@ == split_char(trim(line@), '-')[1]);
    match (parse_usize(&parts[0]), parse_usize(&parts[1])) {
        (Some(a), Some(b)) => Some((a, b)),
        _ => None,
    }
}

/// The status of every possible CPU, from the first to the last that the
/// `possible` line names: `true` for the CPUs that the `online` range list
/// names.
pub open spec fn cpu_status_spec(first: usize, last: usize, online: Seq<usize>) -> Seq<(usize, bool)> {
    inclusive_range(first, last).map_values(|i: usize| (i, online.contains(i)))
}

/// The status of every possible CPU given the two lines.
pub open spec fn cpu_status_of(possible: Seq<char>, online: Seq<char>) -> Seq<(usize, bool)> {
    match (possible_bounds(possible), range_list_values(online)) {
        (Some((first, last)), Some(list)) => cpu_status_spec(first, last, list),
        _ => seq![],
    }
}

/// Whether `x` occurs in `v`.
pub fn contains_usize(v: &Vec<usize>, x: usize) -> (r: bool)
    ensures
        r == v@.contains(x),
{
    for i in 0..v.len()
        invariant
            forall|j: int| 0 <= j < i ==> v@[j] != x,
    {
        if v[i] == x {
            return true;
        }
    }
    false
}

/// The status of each possible CPU, in increasing order of id: `true` for
/// online, `false` for offline. `possible` is the first line of
/// `/sys/devices/system/cpu/possible`, `online` that of
/// `/sys/devices/system/cpu/online`.
pub fn get_cpu_status(possible: &str, online: &str) -> (status: Vec<(usize, bool)>)
    requires
        possible_bounds(possible@) is Some,
        range_list_values(online@) is Some,
    ensures
        status@ == cpu_status_of(possible@, online@),
        forall|i: int, j: int| 0 <= i < j < status@.len() ==> status@[i].0 < status@[j].0,
{
    let (start, end) = match possible_range(possible) {
        Some(p) => p,
        None => (1, 0),
    };
    let online_cpus = parse_range_string(online);
    let ghost want = cpu_status_spec(start, end, online_cpus@);
    let mut status: Vec<(usize, bool)> = Vec::new();
    if start > end {
        assert(status@ =~= want);
        return status;
    }
    assert forall|a: int, b: int| 0 <= a < b < want.len() implies want[a].0 < want[b].0 by {
        assert(want[a].0 == start + a && want[b].0 == start + b);
    }
    let mut i: usize = start;
    loop
        invariant
            start <= i <= end,
            want == cpu_status_spec(start, end, online_cpus@),
            want == cpu_status_of(possible@, online@),
            forall|a: int, b: int| 0 <= a < b < want.len() ==> want[a].0 < want[b].0,
            status@ == want.take(i - start),
        decreases end - i,
    {
        let on = contains_usize(&online_cpus, i);
        status.push((i, on));
        assert(status@ =~= want.take(i - start + 1));
        if i == end {
            assert(want.take(i - start + 1) =~= want);
            return status;
        }
        i = i + 1;
    }
}

} // verus!

//! What the records of `/proc/cpuinfo`, the CPU and socket entries and the
//! summary counts hold, field by field.
use vstd::prelude::*;

use crate::cpuinfo::{apply_field, default_info, CPUInfoFileView};
use crate::text::{parse_usize_spec, words};
use crate::topology::{
    count_status, distinct_ids, first_online, global_counts, infos_upto, CpuInfoView, SocketInfoView,
};

verus! {

proof fn lemma_keys_differ()
    ensures
        "processor"@.len() == 9 && "processor"@[0] == 'p',
        "vendor_id"@.len() == 9 && "vendor_id"@[0] == 'v',
        "microcode"@.len() == 9 && "microcode"@[0] == 'm',
        "cpu cores"@.len() == 9 && "cpu cores"@[0] == 'c',
        "cpu family"@.len() == 10 && "cpu family"@[0] == 'c' && "cpu family"@[1] == 'p',
        "model name"@.len() == 10 && "model name"@[0] == 'm',
        "cache size"@.len() == 10 && "cache size"@[0] == 'c' && "cache size"@[1] == 'a',
        "model"@.len() == 5 && "model"@[0] == 'm',
        "flags"@.len() == 5 && "flags"@[0] == 'f',
        "stepping"@.len() == 8 && "stepping"@[0] == 's' && "stepping"@[1] == 't',
        "siblings"@.len() == 8 && "siblings"@[0] == 's' && "siblings"@[1] == 'i',
        "bogomips"@.len() == 8 && "bogomips"@[0] == 'b',
        "cpu MHz"@.len() == 7 && "cpu MHz"@[1] == 'p',
        "core id"@.len() == 7 && "core id"@[1] == 'o',
        "physical id"@.len() == 11 && "physical id"@[0] == 'p',
        "cpuid level"@.len() == 11 && "cpuid level"@[0] == 'c',
        "fpu_exception"@.len() == 13 && "fpu_exception"@[0] == 'f',
        "address sizes"@.len() == 13 && "address sizes"@[0] == 'a',
        "apicid"@.len() == 6,
        "initial apicid"@.len() == 14,
        "fpu"@.len() == 3,
        "wp"@.len() == 2,
        "bugs"@.len() == 4,
        "clflush size"@.len() == 12,
        "cache_alignment"@.len() == 15,
{
    reveal_strlit("processor");
    reveal_strlit("vendor_id");
    reveal_strlit("microcode");
    reveal_strlit("cpu cores");
    reveal_strlit("cpu family");
    reveal_strlit("model name");
    reveal_strlit("cache size");
    reveal_strlit("model");
    reveal_strlit("flags");
    reveal_strlit("stepping");
    reveal_strlit("siblings");
    reveal_strlit("bogomips");
    reveal_strlit("cpu MHz");
    reveal_strlit("core id");
    reveal_strlit("physical id");
    reveal_strlit("cpuid level");
    reveal_strlit("fpu_exception");
    reveal_strlit("address sizes");
    reveal_strlit("apicid");
    reveal_strlit("initial apicid");
    reveal_strlit("fpu");
    reveal_strlit("wp");
    reveal_strlit("bugs");
    reveal_strlit("clflush size");
    reveal_strlit("cache_alignment");
}

/// The number a text reads as, 0 when it reads as none.
pub open spec fn read_or_zero(v: Seq<char>) -> usize {
    match parse_usize_spec(v) {
        Some(n) => n,
        None => 0,
    }
}

/// The number a text reads as, or `former` when it reads as none.
pub open spec fn read_or(v: Seq<char>, former: Option<usize>) -> Option<usize> {
    match parse_usize_spec(v) {
        Some(n) => Some(n),
        None => former,
    }
}

/// Each field of `/proc/cpuinfo` sets the member of the record that it
/// names, and only that one: numbers are read (a text that reads as no
/// number gives 0, or leaves an optional member as it was), texts are kept
/// as they are, "yes" sets a flag, "bugs" lists its words, and each "cpu MHz"
/// or "bogomips" text is added after the earlier ones. Any other key
/// leaves the record unchanged.
pub proof fn law_cpuinfo_fields(c: CPUInfoFileView, v: Seq<char>, key: Seq<char>)
    ensures
        apply_field(c, "processor"@, v) == (CPUInfoFileView { processor: read_or_zero(v), ..c }),
        apply_field(c, "vendor_id"@, v) == (CPUInfoFileView { vendor_id: v, ..c }),
        apply_field(c, "cpu family"@, v) == (CPUInfoFileView { cpu_family: read_or_zero(v), ..c }),
        apply_field(c, "model"@, v) == (CPUInfoFileView { model: read_or_zero(v), ..c }),
        apply_field(c, "model name"@, v) == (CPUInfoFileView { model_name: v, ..c }),
        apply_field(c, "stepping"@, v) == (CPUInfoFileView { stepping: read_or_zero(v), ..c }),
        apply_field(c, "microcode"@, v) == (CPUInfoFileView { microcode: Some(v), ..c }),
        apply_field(c, "cpu MHz"@, v) == (CPUInfoFileView { cpu_mhz: c.cpu_mhz.push(v), ..c }),
        apply_field(c, "cache size"@, v) == (CPUInfoFileView { cache_size: Some(v), ..c }),
        apply_field(c, "physical id"@, v) == (CPUInfoFileView { physical_id: read_or(v, c.physical_id), ..c }),
        apply_field(c, "siblings"@, v) == (CPUInfoFileView { siblings: read_or(v, c.siblings), ..c }),
        apply_field(c, "core id"@, v) == (CPUInfoFileView { core_id: read_or(v, c.core_id), ..c }),
        apply_field(c, "cpu cores"@, v) == (CPUInfoFileView { cpu_cores: read_or(v, c.cpu_cores), ..c }),
        apply_field(c, "apicid"@, v) == (CPUInfoFileView { apicid: read_or(v, c.apicid), ..c }),
        apply_field(c, "initial apicid"@, v) == (CPUInfoFileView {
            initial_apicid: read_or(v, c.initial_apicid),
            ..c
        }),
        apply_field(c, "fpu"@, v) == (CPUInfoFileView { fpu: v == "yes"@, ..c }),
        apply_field(c, "fpu_exception"@, v) == (CPUInfoFileView { fpu_exception: v == "yes"@, ..c }),
        apply_field(c, "cpuid level"@, v) == (CPUInfoFileView { cpuid_level: read_or_zero(v), ..c }),
        apply_field(c, "wp"@, v) == (CPUInfoFileView { wp: v == "yes"@, ..c }),
        apply_field(c, "flags"@, v) == (CPUInfoFileView { flags: v, ..c }),
        apply_field(c, "bugs"@, v) == (CPUInfoFileView { bugs: Some(words(v)), ..c }),
        apply_field(c, "bogomips"@, v) == (CPUInfoFileView { bogomips: c.bogomips.push(v), ..c }),
        apply_field(c, "clflush size"@, v) == (CPUInfoFileView {
            clflush_size: read_or(v, c.clflush_size),
            ..c
        }),
        apply_field(c, "cache_alignment"@, v) == (CPUInfoFileView {
            cache_alignment: read_or(v, c.cache_alignment),
            ..c
        }),
        apply_field(c, "address sizes"@, v) == (CPUInfoFileView { address_sizes: Some(v), ..c }),
        key != "processor"@ && key != "vendor_id"@ && key != "cpu family"@ && key != "model"@ && key
            != "model name"@ && key != "stepping"@ && key != "microcode"@ && key != "cpu MHz"@ && key
            != "cache size"@ && key != "physical id"@ && key != "siblings"@ && key != "core id"@ && key
            != "cpu cores"@ && key != "apicid"@ && key != "initial apicid"@ && key != "fpu"@ && key
            != "fpu_exception"@ && key != "cpuid level"@ && key != "wp"@ && key != "flags"@ && key
            != "bugs"@ && key != "bogomips"@ && key != "clflush size"@ && key != "cache_alignment"@
            && key != "address sizes"@ ==> apply_field(c, key, v) == c,
{
    lemma_keys_differ();
}

/// The record before any field is read: every number 0, every text empty,
/// every flag false, no optional member, no "cpu MHz" or "bogomips" text.
pub proof fn law_default_record()
    ensures
        ({
            let d = default_info();
            &&& d.processor == 0 && d.cpu_family == 0 && d.model == 0 && d.stepping == 0 && d.cpuid_level
                == 0
            &&& d.vendor_id.len() == 0 && d.model_name.len() == 0 && d.flags.len() == 0
            &&& d.cpu_mhz.len() == 0 && d.bogomips.len() == 0
            &&& !d.fpu && !d.fpu_exception && !d.wp
            &&& d.microcode is None && d.cache_size is None && d.address_sizes is None && d.bugs is None
            &&& d.physical_id is None && d.siblings is None && d.core_id is None && d.cpu_cores is None
            &&& d.apicid is None && d.initial_apicid is None && d.clflush_size is None
                && d.cache_alignment is None
        }),
{
}

/// Whether the CPU at position `i` is online and no CPU before it is.
pub open spec fn first_online_at(st: Seq<(usize, bool)>, i: int) -> bool {
    0 <= i < st.len() && st[i].1 && forall|j: int| 0 <= j < i ==> !(#[trigger] st[j]).1
}

proof fn lemma_first_online(st: Seq<(usize, bool)>)
    ensures
        forall|i: int| #[trigger] first_online_at(st, i) ==> first_online(st) == Some(st[i].0),
        (forall|i: int| 0 <= i < st.len() ==> !(#[trigger] st[i]).1) ==> first_online(st) is None,
    decreases st.len(),
{
    if st.len() > 0 {
        let w = st.drop_last();
        lemma_first_online(w);
        assert forall|i: int| #[trigger] first_online_at(st, i) implies first_online(st) == Some(st[i].0) by {
            if i < st.len() - 1 {
                assert(first_online_at(w, i)) by {
                    assert forall|j: int| 0 <= j < i implies !(#[trigger] w[j]).1 by {
                        assert(w[j] == st[j]);
                    }
                    assert(w[i] == st[i]);
                }
            } else {
                assert forall|j: int| 0 <= j < w.len() implies !(#[trigger] w[j]).1 by {
                    assert(w[j] == st[j]);
                }
            }
        }
        if forall|i: int| 0 <= i < st.len() ==> !(#[trigger] st[i]).1 {
            assert forall|j: int| 0 <= j < w.len() implies !(#[trigger] w[j]).1 by {
                assert(w[j] == st[j]);
            }
            assert(!st[st.len() - 1].1);
        }
    }
}

/// Whether a CPU is online.
pub open spec fn is_online(e: (usize, bool)) -> bool {
    e.1
}

/// Whether a CPU is offline.
pub open spec fn is_offline(e: (usize, bool)) -> bool {
    !e.1
}

proof fn lemma_count_status(st: Seq<(usize, bool)>, n: int)
    requires
        0 <= n <= st.len(),
    ensures
        count_status(st, n, true) == st.take(n).filter(|e: (usize, bool)| is_online(e)).len(),
        count_status(st, n, false) == st.take(n).filter(|e: (usize, bool)| is_offline(e)).len(),
    decreases n,
{
    if n > 0 {
        lemma_count_status(st, n - 1);
        assert(st.take(n) =~= st.take(n - 1).push(st[n - 1]));
        st.take(n - 1).lemma_filter_push(st[n - 1], |e: (usize, bool)| is_online(e));
        st.take(n - 1).lemma_filter_push(st[n - 1], |e: (usize, bool)| is_offline(e));
    } else {
        assert(st.take(0).filter(|e: (usize, bool)| is_online(e)) =~= Seq::<(usize, bool)>::empty());
        assert(st.take(0).filter(|e: (usize, bool)| is_offline(e)) =~= Seq::<(usize, bool)>::empty());
    }
}

proof fn lemma_sockets_at_most(st: Seq<(usize, bool)>, m: Map<usize, CPUInfoFileView>, k: int)
    requires
        0 <= k <= st.len(),
        infos_upto(st, m, k) is Some,
    ensures
        (infos_upto(st, m, k)->0).1.len() <= k,
    decreases k,
{
    if k > 0 {
        lemma_sockets_at_most(st, m, k - 1);
    }
}

/// The summary counts, from the CPUs' statuses and records: the CPUs
/// detected are those listed, the online ones those marked online and the
/// offline ones the others; the sockets are those listed for the online
/// CPUs; and, from the record of the first online CPU, with `c` cores per
/// socket, `s` siblings and `k` sockets, the physical cores are `c * k` and
/// the logical ones `s * k - c * k` (both 0 when no CPU is online).
pub proof fn law_cpu_summary(st: Seq<(usize, bool)>, m: Map<usize, CPUInfoFileView>)
    requires
        st.len() <= i64::MAX,
        st.len() <= usize::MAX,
        global_counts(st, m) is Some,
    ensures
        ({
            let (k, detected, online, offline, physical, logical) = global_counts(st, m)->0;
            &&& k == (infos_upto(st, m, st.len() as int)->0).1.len()
            &&& detected == st.len()
            &&& online == st.filter(|e: (usize, bool)| is_online(e)).len()
            &&& offline == st.filter(|e: (usize, bool)| is_offline(e)).len()
            &&& (forall|i: int| 0 <= i < st.len() ==> !(#[trigger] st[i]).1) ==> physical == 0 && logical == 0
            &&& forall|i: int| #[trigger] first_online_at(st, i) ==> {
                let r = m[st[i].0];
                &&& r.cpu_cores is Some && r.siblings is Some
                &&& r.cpu_cores->0 <= i64::MAX && r.siblings->0 <= i64::MAX && r.cpu_cores->0 * k <= usize::MAX && r.siblings->0 * k <= usize::MAX ==> {
                    &&& physical == r.cpu_cores->0 * k
                    &&& logical == r.siblings->0 * k - r.cpu_cores->0 * k
                }
            }
        }),
{
    let n = st.len() as int;
    lemma_sockets_at_most(st, m, n);
    lemma_first_online(st);
    lemma_count_status(st, n);
    assert(st.take(n) =~= st);
    let (k, detected, online, offline, physical, logical) = global_counts(st, m)->0;
    assert forall|i: int| #[trigger] first_online_at(st, i) implies {
        let r = m[st[i].0];
        &&& r.cpu_cores is Some && r.siblings is Some
        &&& r.cpu_cores->0 <= i64::MAX && r.siblings->0 <= i64::MAX && r.cpu_cores->0 * k <= usize::MAX && r.siblings->0 * k <= usize::MAX ==> {
            &&& physical == r.cpu_cores->0 * k
            &&& logical == r.siblings->0 * k - r.cpu_cores->0 * k
        }
    } by {
        let r = m[st[i].0];
        assert(first_online(st) == Some(st[i].0));
        assert(crate::topology::core_counts(r, k) is Some);
        if r.cpu_cores->0 <= i64::MAX && r.siblings->0 <= i64::MAX && r.cpu_cores->0 * k <= usize::MAX && r.siblings->0 * k <= usize::MAX {
            let c = r.cpu_cores->0;
            let sb = r.siblings->0;
            assert(k >= 0);
            assert(c * k >= 0 && sb * k >= 0) by (nonlinear_arith)
                requires
                    c >= 0,
                    sb >= 0,
                    k >= 0,
            ;
            assert((c as i64) as int == c);
            assert((sb as i64) as int == sb);
            let p = (c as i64) * k;
            let q = (sb as i64) * k;
            assert(p == c * k);
            assert(q == sb * k);
            assert(((p as i64) as usize) as int == p);
            assert(((q as i64) as usize) as int == q);
        }
    }
}

/// The entry of one CPU as it should be: an online CPU with the socket and
/// the whole record of `/proc/cpuinfo`, an offline one with no socket and
/// an empty record.
pub open spec fn expected_entry(e: (usize, bool), m: Map<usize, CPUInfoFileView>) -> CpuInfoView {
    if e.1 {
        CpuInfoView { id: e.0, physical_id: m[e.0].physical_id, online: "online"@, all_infos: m[e.0] }
    } else {
        CpuInfoView { id: e.0, physical_id: None, online: "offline"@, all_infos: default_info() }
    }
}

/// Whether the CPU at position `j` is online and the first online CPU of
/// its socket.
pub open spec fn first_of_socket(st: Seq<(usize, bool)>, m: Map<usize, CPUInfoFileView>, j: int) -> bool {
    &&& 0 <= j < st.len()
    &&& st[j].1
    &&& forall|l: int| 0 <= l < j && (#[trigger] st[l]).1 ==> m[st[l].0].physical_id != m[st[j].0].physical_id
}

/// The socket entry that the record `r` of its first CPU gives: the socket
/// number, vendor, family, model, model name and clock texts of the record.
pub open spec fn socket_from(r: CPUInfoFileView) -> SocketInfoView {
    SocketInfoView {
        id: r.physical_id->0,
        vendor_id: r.vendor_id,
        cpu_family: r.cpu_family,
        model: r.model,
        model_name: r.model_name,
        cpu_mhz: r.cpu_mhz,
    }
}

proof fn lemma_entries(st: Seq<(usize, bool)>, m: Map<usize, CPUInfoFileView>, k: int)
    requires
        distinct_ids(st),
        0 <= k <= st.len(),
        infos_upto(st, m, k) is Some,
    ensures
        ({
            let (ci, ls, si) = infos_upto(st, m, k)->0;
            &&& forall|j: int| 0 <= j < k ==> ci.contains_key((#[trigger] st[j]).0) && ci[st[j].0] == expected_entry(st[j], m)
            &&& forall|j: int| 0 <= j < k && (#[trigger] st[j]).1 ==> m.contains_key(st[j].0) && m[st[j].0].physical_id is Some
            &&& forall|id: usize| #[trigger] ci.contains_key(id) ==> exists|j: int| 0 <= j < k && st[j].0 == id
            &&& forall|p: usize| ls.contains(p) <==> exists|j: int| 0 <= j < k && (#[trigger] st[j]).1 && m[st[j].0].physical_id == Some(p)
            &&& forall|j: int| 0 <= j < k && #[trigger] first_of_socket(st, m, j) ==> si.contains_key(st[j].0)
            &&& forall|id: usize| #[trigger] si.contains_key(id) ==> si[id] == socket_from(m[id]) && exists|j: int|
                0 <= j < k && st[j].0 == id && first_of_socket(st, m, j)
        }),
    decreases k,
{
    if k > 0 {
        lemma_entries(st, m, k - 1);
        let (ci, ls, si) = infos_upto(st, m, k - 1)->0;
        let (ci2, ls2, si2) = infos_upto(st, m, k)->0;
        let (id, on) = st[k - 1];
        assert forall|j: int| 0 <= j < k - 1 implies (#[trigger] st[j]).0 != id by {
            assert(st[j].0 != st[k - 1].0);
        }
        if on {
            let pid = m[id].physical_id->0;
            assert forall|p: usize| ls2.contains(p) <==> exists|j: int|
                0 <= j < k && (#[trigger] st[j]).1 && m[st[j].0].physical_id == Some(p) by {
                if ls2.contains(p) && !ls.contains(p) {
                    assert(p == pid);
                    assert(st[k - 1].1 && m[st[k - 1].0].physical_id == Some(p));
                }
                if exists|j: int| 0 <= j < k && (#[trigger] st[j]).1 && m[st[j].0].physical_id == Some(p) {
                    let j = choose|j: int| 0 <= j < k && (#[trigger] st[j]).1 && m[st[j].0].physical_id == Some(p);
                    if j < k - 1 {
                        assert(ls.contains(p));
                        if !ls.contains(pid) {
                            assert(ls2[ls.index_of(p)] == p);
                        }
                    } else if !ls.contains(pid) {
                        assert(ls2[ls.len() as int] == pid);
                    }
                }
            }
            let first = !ls.contains(pid);
            assert(first <==> first_of_socket(st, m, k - 1)) by {
                if first {
                    assert forall|l: int| 0 <= l < k - 1 && (#[trigger] st[l]).1 implies m[st[l].0].physical_id
                        != m[st[k - 1].0].physical_id by {
                        if m[st[l].0].physical_id == m[st[k - 1].0].physical_id {
                            assert(ls.contains(pid));
                        }
                    }
                } else {
                    let j = choose|j: int| 0 <= j < k - 1 && (#[trigger] st[j]).1 && m[st[j].0].physical_id == Some(pid);
                    assert(m[st[j].0].physical_id == m[st[k - 1].0].physical_id);
                }
            }
            assert forall|j: int| 0 <= j < k && #[trigger] first_of_socket(st, m, j) implies si2.contains_key(st[j].0) by {
                if j < k - 1 {
                    assert(first_of_socket(st, m, j));
                }
            }
            assert forall|id2: usize| #[trigger] si2.contains_key(id2) implies si2[id2] == socket_from(m[id2])
                && exists|j: int| 0 <= j < k && st[j].0 == id2 && first_of_socket(st, m, j) by {
                if id2 != id || !first {
                    assert(si.contains_key(id2));
                    let j = choose|j: int| 0 <= j < k - 1 && st[j].0 == id2 && first_of_socket(st, m, j);
                } else {
                    assert(st[k - 1].0 == id2);
                }
            }
            assert forall|x: usize| #[trigger] ci2.contains_key(x) implies exists|j: int| 0 <= j < k && st[j].0 == x by {
                if x != id {
                    assert(ci.contains_key(x));
                    let j = choose|j: int| 0 <= j < k - 1 && st[j].0 == x;
                } else {
                    assert(st[k - 1].0 == x);
                }
            }
        } else {
            assert forall|p: usize| ls2.contains(p) <==> exists|j: int|
                0 <= j < k && (#[trigger] st[j]).1 && m[st[j].0].physical_id == Some(p) by {
                if exists|j: int| 0 <= j < k && (#[trigger] st[j]).1 && m[st[j].0].physical_id == Some(p) {
                    let j = choose|j: int| 0 <= j < k && (#[trigger] st[j]).1 && m[st[j].0].physical_id == Some(p);
                    assert(j < k - 1);
                }
            }
            assert forall|j: int| 0 <= j < k && #[trigger] first_of_socket(st, m, j) implies si2.contains_key(st[j].0) by {
                if j < k - 1 {
                    assert(first_of_socket(st, m, j));
                }
            }
            assert forall|id2: usize| #[trigger] si2.contains_key(id2) implies si2[id2] == socket_from(m[id2])
                && exists|j: int| 0 <= j < k && st[j].0 == id2 && first_of_socket(st, m, j) by {
                assert(si.contains_key(id2));
                let j = choose|j: int| 0 <= j < k - 1 && st[j].0 == id2 && first_of_socket(st, m, j);
            }
            assert forall|x: usize| #[trigger] ci2.contains_key(x) implies exists|j: int| 0 <= j < k && st[j].0 == x by {
                if x != id {
                    assert(ci.contains_key(x));
                    let j = choose|j: int| 0 <= j < k - 1 && st[j].0 == x;
                } else {
                    assert(st[k - 1].0 == x);
                }
            }
        }
        assert forall|j: int| 0 <= j < k implies ci2.contains_key((#[trigger] st[j]).0) && ci2[st[j].0] == expected_entry(st[j], m) by {
            if j < k - 1 {
                assert(ci.contains_key(st[j].0));
            }
        }
        assert forall|j: int| 0 <= j < k && (#[trigger] st[j]).1 implies m.contains_key(st[j].0) && m[st[j].0].physical_id is Some by {
            if j < k - 1 {
                assert(st[j].1);
            }
        }
    }
}

/// The CPU entries and the sockets, from the statuses and the records: each
/// CPU has its entry (an online one with its socket number and its whole
/// record, an offline one with no socket and an empty record), no other
/// entry is made, and the sockets are keyed by the first online CPU of each,
/// each holding that CPU's socket number, vendor, family, model, model name
/// and clock texts.
pub proof fn law_cpu_entries(st: Seq<(usize, bool)>, m: Map<usize, CPUInfoFileView>)
    requires
        distinct_ids(st),
        infos_upto(st, m, st.len() as int) is Some,
    ensures
        ({
            let (ci, ls, si) = infos_upto(st, m, st.len() as int)->0;
            &&& forall|j: int| 0 <= j < st.len() ==> ci.contains_key((#[trigger] st[j]).0) && ci[st[j].0] == expected_entry(st[j], m)
            &&& forall|id: usize| #[trigger] ci.contains_key(id) ==> exists|j: int| 0 <= j < st.len() && st[j].0 == id
            &&& forall|j: int| #[trigger] first_of_socket(st, m, j) ==> si.contains_key(st[j].0)
            &&& forall|id: usize| #[trigger] si.contains_key(id) ==> si[id] == socket_from(m[id]) && exists|j: int|
                0 <= j < st.len() && st[j].0 == id && first_of_socket(st, m, j)
        }),
{
    lemma_entries(st, m, st.len() as int);
}

} // verus!

//! The CPUs and sockets of the machine: per-CPU records with their online
//! status, the sockets (physical processors) they belong to, and the
//! counts of the summary.
use std::collections::HashMap;
use vstd::prelude::*;

use crate::cpuinfo::{copy_strings, default_info, CPUInfoFile, CPUInfoFileView};
use crate::text::{chars_of, string_of, views_of_strings};

verus! {

/// What the summary shows of a socket (physical processor), taken from the
/// record of its first CPU; `cpu_mhz` holds the clock speed texts of that
/// record.
#[derive(Debug)]
pub struct SocketInfo {
    pub id: usize,
    pub vendor_id: String,
    pub cpu_family: usize,
    pub model: usize,
    pub model_name: String,
    pub cpu_mhz: Vec<String>,
}

pub struct SocketInfoView {
    pub id: usize,
    pub vendor_id: Seq<char>,
    pub cpu_family: usize,
    pub model: usize,
    pub model_name: Seq<char>,
    pub cpu_mhz: Seq<Seq<char>>,
}

impl View for SocketInfo {
    type V = SocketInfoView;

    open spec fn view(&self) -> SocketInfoView {
        SocketInfoView {
            id: self.id,
            vendor_id: self.vendor_id@,
            cpu_family: self.cpu_family,
            model: self.model,
            model_name: self.model_name@,
            cpu_mhz: views_of_strings(self.cpu_mhz@),
        }
    }
}

/// A CPU with its status ("online" or "offline") and, when online, its
/// socket and record.
#[derive(Debug)]
pub struct CpuInfo {
    pub id: usize,
    pub physical_id: Option<usize>,
    pub online: String,
    pub all_infos: CPUInfoFile,
}

pub struct CpuInfoView {
    pub id: usize,
    pub physical_id: Option<usize>,
    pub online: Seq<char>,
    pub all_infos: CPUInfoFileView,
}

impl View for CpuInfo {
    type V = CpuInfoView;

    open spec fn view(&self) -> CpuInfoView {
        CpuInfoView {
            id: self.id,
            physical_id: self.physical_id,
            online: self.online@,
            all_infos: self.all_infos@,
        }
    }
}

/// The summary of the machine's CPUs.
#[derive(Debug)]
pub struct CpuGlobalInfo {
    pub socket_nbr_detected: i64,
    pub cpu_nbr_detected: usize,
    pub cpu_nbr_online: usize,
    pub cpu_nbr_offline: usize,
    pub cpu_nbr_physical: usize,
    pub cpu_nbr_logical: usize,
    pub socket: HashMap<usize, SocketInfo>,
    pub cpu: HashMap<usize, CpuInfo>,
}

/// What the tool reports of the system.
#[derive(Debug)]
pub struct SystemInfo {
    pub cpu: CpuGlobalInfo,
}

/// The status word of a CPU.
pub open spec fn status_text(online: bool) -> Seq<char> {
    if online {
        "online"@
    } else {
        "offline"@
    }
}

/// The socket of a CPU, from its record.
pub open spec fn socket_of(info: CPUInfoFileView) -> SocketInfoView {
    SocketInfoView {
        id: info.physical_id->0,
        vendor_id: info.vendor_id,
        cpu_family: info.cpu_family,
        model: info.model,
        model_name: info.model_name,
        cpu_mhz: info.cpu_mhz,
    }
}

/// The CPUs' statuses stand for a map: no CPU occurs twice.
pub open spec fn distinct_ids(st: Seq<(usize, bool)>) -> bool {
    forall|i: int, j: int| 0 <= i < j < st.len() ==> (#[trigger] st[i]).0 != (#[trigger] st[j]).0
}

/// What the first `k` statuses give: each CPU's entry; the sockets in order
/// of their first online CPU; and each socket keyed by that first CPU.
/// `None` when an online CPU has no record or no socket in its record.
pub open spec fn infos_upto(st: Seq<(usize, bool)>, m: Map<usize, CPUInfoFileView>, k: int) -> Option<(Map<usize, CpuInfoView>, Seq<usize>, Map<usize, SocketInfoView>)>
    decreases k,
{
    if k <= 0 {
        Some((Map::empty(), seq![], Map::empty()))
    } else {
        match infos_upto(st, m, k - 1) {
            None => None,
            Some((ci, ls, si)) => {
                let (id, on) = st[k - 1];
                if on {
                    if !m.contains_key(id) || m[id].physical_id is None {
                        None
                    } else {
                        let info = m[id];
                        let pid = info.physical_id->0;
                        let entry = CpuInfoView {
                            id,
                            physical_id: Some(pid),
                            online: status_text(true),
                            all_infos: info,
                        };
                        if ls.contains(pid) {
                            Some((ci.insert(id, entry), ls, si))
                        } else {
                            Some((ci.insert(id, entry), ls.push(pid), si.insert(id, socket_of(info))))
                        }
                    }
                } else {
                    Some(
                        (
                            ci.insert(
                                id,
                                CpuInfoView {
                                    id,
                                    physical_id: None,
                                    online: status_text(false),
                                    all_infos: default_info(),
                                },
                            ),
                            ls,
                            si,
                        ),
                    )
                }
            },
        }
    }
}

proof fn lemma_infos_fail(st: Seq<(usize, bool)>, m: Map<usize, CPUInfoFileView>, j: int, n: int)
    requires
        0 <= j <= n,
        infos_upto(st, m, j) is None,
    ensures
        infos_upto(st, m, n) is None,
    decreases n - j,
{
    if j < n {
        lemma_infos_fail(st, m, j, n - 1);
    }
}

pub open spec fn cpus_view(m: Map<usize, CpuInfo>) -> Map<usize, CpuInfoView> {
    m.map_values(|c: CpuInfo| c@)
}

pub open spec fn sockets_view(m: Map<usize, SocketInfo>) -> Map<usize, SocketInfoView> {
    m.map_values(|s: SocketInfo| s@)
}

pub open spec fn records_view(m: Map<usize, CPUInfoFile>) -> Map<usize, CPUInfoFileView> {
    m.map_values(|c: CPUInfoFile| c@)
}

/// A string holding `s`.
fn string_from(s: &str) -> (r: String)
    ensures
        r@ == s@,
{
    string_of(&chars_of(s))
}

/// Whether `x` occurs in `v`.
fn contains(v: &Vec<usize>, x: usize) -> (r: bool)
    ensures
        r == v@.contains(x),
{
    for i in 0..v.len()
        invariant
            forall|j: int| 0 <= j < i ==> v@[j] != x,
    {
        if v[i] == x {
            return true;
        }
    }
    false
}

/// The entry of each CPU, the sockets in order of their first online CPU,
/// and each socket keyed by that first CPU; or `None` where `get_cpu_infos`
/// would fail (an online CPU without a record, or without a socket in it).
pub fn try_get_cpu_infos(cpu_status: &Vec<(usize, bool)>, cpuinfofile: &HashMap<usize, CPUInfoFile>) -> (r: Option<(HashMap<usize, CpuInfo>, Vec<usize>, HashMap<usize, SocketInfo>)>)
    ensures
        match r {
            Some((ci, ls, si)) => infos_upto(
                cpu_status@,
                records_view(cpuinfofile@),
                cpu_status@.len() as int,
            ) == Some((cpus_view(ci@), ls@, sockets_view(si@))),
            None => infos_upto(
                cpu_status@,
                records_view(cpuinfofile@),
                cpu_status@.len() as int,
            ) is None,
        },
{
    let ghost m = records_view(cpuinfofile@);
    let mut cpuinfos: HashMap<usize, CpuInfo> = HashMap::new();
    let mut socketinfos: HashMap<usize, SocketInfo> = HashMap::new();
    let mut list_socket: Vec<usize> = Vec::new();
    for k in 0..cpu_status.len()
        invariant
            m == records_view(cpuinfofile@),
            infos_upto(cpu_status@, m, k as int) == Some(
                (cpus_view(cpuinfos@), list_socket@, sockets_view(socketinfos@)),
            ),
    {
        let (cpuid, online) = cpu_status[k];
        let ghost ci0 = cpuinfos@;
        let ghost si0 = socketinfos@;
        if online {
            let info = match cpuinfofile.get(&cpuid) {
                Some(info) => info,
                None => {
                    proof {
                        lemma_infos_fail(cpu_status@, m, k as int + 1, cpu_status@.len() as int);
                    }
                    return None;
                },
            };
            assert(m.contains_key(cpuid) && m[cpuid] == info@);
            let pid = match info.physical_id {
                Some(p) => p,
                None => {
                    proof {
                        lemma_infos_fail(cpu_status@, m, k as int + 1, cpu_status@.len() as int);
                    }
                    return None;
                },
            };
            if !contains(&list_socket, pid) {
                list_socket.push(pid);
                let socket = SocketInfo {
                    id: pid,
                    vendor_id: info.vendor_id.clone(),
                    cpu_family: info.cpu_family,
                    model: info.model,
                    model_name: info.model_name.clone(),
                    cpu_mhz: copy_strings(&info.cpu_mhz),
                };
                let ghost sv = socket@;
                socketinfos.insert(cpuid, socket);
                assert(sockets_view(socketinfos@) =~= sockets_view(si0).insert(cpuid, sv));
            }
            let entry = CpuInfo {
                id: cpuid,
                physical_id: Some(pid),
                online: string_from("online"),
                all_infos: info.duplicate(),
            };
            let ghost ev = entry@;
            cpuinfos.insert(cpuid, entry);
            assert(cpus_view(cpuinfos@) =~= cpus_view(ci0).insert(cpuid, ev));
        } else {
            let entry = CpuInfo {
                id: cpuid,
                physical_id: None,
                online: string_from("offline"),
                all_infos: CPUInfoFile::default(),
            };
            let ghost ev = entry@;
            cpuinfos.insert(cpuid, entry);
            assert(cpus_view(cpuinfos@) =~= cpus_view(ci0).insert(cpuid, ev));
        }
    }
    Some((cpuinfos, list_socket, socketinfos))
}

/// The entry of each CPU, the sockets in order of their first online CPU,
/// and each socket keyed by that first CPU. `cpu_status` gives each CPU's
/// status (true for online) and `cpuinfofile` the records of
/// `/proc/cpuinfo`.
pub fn get_cpu_infos(cpu_status: &Vec<(usize, bool)>, cpuinfofile: &HashMap<usize, CPUInfoFile>) -> (r: (HashMap<usize, CpuInfo>, Vec<usize>, HashMap<usize, SocketInfo>))
    requires
        infos_upto(cpu_status@, records_view(cpuinfofile@), cpu_status@.len() as int) is Some,
    ensures
        infos_upto(cpu_status@, records_view(cpuinfofile@), cpu_status@.len() as int) == Some(
            (cpus_view(r.0@), r.1@, sockets_view(r.2@)),
        ),
{
    match try_get_cpu_infos(cpu_status, cpuinfofile) {
        Some(r) => r,
        None => (HashMap::new(), Vec::new(), HashMap::new()),
    }
}

/// `cpus` and `sockets` are the entries that the statuses and records give.
pub open spec fn entries_of(st: Seq<(usize, bool)>, m: Map<usize, CPUInfoFileView>, cpus: Map<usize, CpuInfoView>, sockets: Map<usize, SocketInfoView>) -> bool {
    match infos_upto(st, m, st.len() as int) {
        Some((ci, ls, si)) => cpus == ci && sockets == si,
        None => false,
    }
}

/// The number of CPUs among the first `k` whose status is `on`.
pub open spec fn count_status(st: Seq<(usize, bool)>, k: int, on: bool) -> nat
    decreases k,
{
    if k <= 0 {
        0
    } else {
        count_status(st, k - 1, on) + if st[k - 1].1 == on {
            1nat
        } else {
            0nat
        }
    }
}

/// The first online CPU.
pub open spec fn first_online(st: Seq<(usize, bool)>) -> Option<usize>
    decreases st.len(),
{
    if st.len() == 0 {
        None
    } else {
        match first_online(st.drop_last()) {
            Some(id) => Some(id),
            None => if st.last().1 {
                Some(st.last().0)
            } else {
                None
            },
        }
    }
}

/// The physical and logical core counts from one CPU's record and the
/// number of sockets: cores per socket times sockets, and threads (its
/// "siblings") times sockets less the physical cores, computed in `i64`
/// then read as `usize`; `None` when a count is missing, a product leaves
/// `i64` or the difference is negative.
pub open spec fn core_counts(info: CPUInfoFileView, sockets: i64) -> Option<(usize, usize)> {
    match info.cpu_cores {
        None => None,
        Some(cores) => {
            let p = (cores as i64) * sockets;
            if !(i64::MIN <= p <= i64::MAX) {
                None
            } else {
                let physical = (p as i64) as usize;
                match info.siblings {
                    None => None,
                    Some(sib) => {
                        let q = (sib as i64) * sockets;
                        if !(i64::MIN <= q <= i64::MAX) {
                            None
                        } else if ((q as i64) as usize) < physical {
                            None
                        } else {
                            Some((physical, ((q as i64) as usize - physical) as usize))
                        }
                    },
                }
            }
        },
    }
}

/// The summary's counts: sockets, CPUs, online CPUs, offline CPUs,
/// physical cores and logical cores (these two from the first online CPU's
/// record, 0 when no CPU is online); `None` where the summary cannot be
/// made.
pub open spec fn global_counts(st: Seq<(usize, bool)>, m: Map<usize, CPUInfoFileView>) -> Option<(i64, usize, usize, usize, usize, usize)> {
    match infos_upto(st, m, st.len() as int) {
        None => None,
        Some((ci, ls, si)) => {
            let sockets = ls.len() as i64;
            let cores = match first_online(st) {
                None => Some((0usize, 0usize)),
                Some(id) => core_counts(m[id], sockets),
            };
            match cores {
                None => None,
                Some((physical, logical)) => Some(
                    (
                        sockets,
                        st.len() as usize,
                        count_status(st, st.len() as int, true) as usize,
                        count_status(st, st.len() as int, false) as usize,
                        physical,
                        logical,
                    ),
                ),
            }
        },
    }
}

proof fn lemma_first_online_record(st: Seq<(usize, bool)>, m: Map<usize, CPUInfoFileView>, k: int)
    requires
        0 <= k <= st.len(),
        infos_upto(st, m, k) is Some,
    ensures
        first_online(st.take(k)) matches Some(id) ==> m.contains_key(id),
        count_status(st, k, true) + count_status(st, k, false) == k,
    decreases k,
{
    if k > 0 {
        lemma_first_online_record(st, m, k - 1);
        assert(st.take(k).drop_last() =~= st.take(k - 1));
    }
}

/// The summary of the machine's CPUs, or `None` where
/// `get_cpu_global_infos` would fail.
pub fn try_get_cpu_global_infos(cpu_status: &Vec<(usize, bool)>, cpuinfofile: &HashMap<usize, CPUInfoFile>) -> (r: Option<CpuGlobalInfo>)
    requires
        distinct_ids(cpu_status@),
    ensures
        match r {
            Some(g) => g.cpu_nbr_online + g.cpu_nbr_offline == g.cpu_nbr_detected && global_counts(cpu_status@, records_view(cpuinfofile@)) == Some(
                (
                    g.socket_nbr_detected,
                    g.cpu_nbr_detected,
                    g.cpu_nbr_online,
                    g.cpu_nbr_offline,
                    g.cpu_nbr_physical,
                    g.cpu_nbr_logical,
                ),
            ) && entries_of(cpu_status@, records_view(cpuinfofile@), cpus_view(g.cpu@), sockets_view(g.socket@)),
            None => global_counts(cpu_status@, records_view(cpuinfofile@)) is None,
        },
{
    let ghost st = cpu_status@;
    let ghost m = records_view(cpuinfofile@);
    let (cpu, list_socket, socket) = match try_get_cpu_infos(cpu_status, cpuinfofile) {
        Some(r) => r,
        None => {
            return None;
        },
    };
    let socket_nbr_detected: i64 = #[verifier::truncate] (list_socket.len() as i64);
    let mut online: usize = 0;
    let mut offline: usize = 0;
    let mut first: Option<usize> = None;
    for k in 0..cpu_status.len()
        invariant
            st == cpu_status@,
            infos_upto(st, m, st.len() as int) is Some,
            online == count_status(st, k as int, true),
            offline == count_status(st, k as int, false),
            first == first_online(st.take(k as int)),
    {
        proof {
            if infos_upto(st, m, k as int) is None {
                lemma_infos_fail(st, m, k as int, st.len() as int);
            }
            lemma_first_online_record(st, m, k as int);
            assert(st.take(k as int + 1).drop_last() =~= st.take(k as int));
        }
        if cpu_status[k].1 {
            online = online + 1;
            if first.is_none() {
                first = Some(cpu_status[k].0);
            }
        } else {
            offline = offline + 1;
        }
    }
    proof {
        lemma_first_online_record(st, m, st.len() as int);
        assert(st.take(st.len() as int) =~= st);
    }
    let mut cpu_nbr_physical: usize = 0;
    let mut cpu_nbr_logical: usize = 0;
    match first {
        Some(id) => {
            let info = match cpuinfofile.get(&id) {
                Some(info) => info,
                None => {
                    return None;
                },
            };
            let cores = match info.cpu_cores {
                Some(c) => c,
                None => {
                    return None;
                },
            };
            let a: i64 = #[verifier::truncate] (cores as i64);
            let p = match a.checked_mul(socket_nbr_detected) {
                Some(p) => p,
                None => {
                    return None;
                },
            };
            cpu_nbr_physical = #[verifier::truncate] (p as usize);
            let sib = match info.siblings {
                Some(c) => c,
                None => {
                    return None;
                },
            };
            let b: i64 = #[verifier::truncate] (sib as i64);
            let q = match b.checked_mul(socket_nbr_detected) {
                Some(q) => q,
                None => {
                    return None;
                },
            };
            let lq: usize = #[verifier::truncate] (q as usize);
            if lq < cpu_nbr_physical {
                return None;
            }
            cpu_nbr_logical = lq - cpu_nbr_physical;
        },
        None => {},
    }
    Some(
        CpuGlobalInfo {
            socket_nbr_detected,
            cpu_nbr_detected: cpu_status.len(),
            cpu_nbr_online: online,
            cpu_nbr_offline: offline,
            cpu_nbr_physical,
            cpu_nbr_logical,
            socket,
            cpu,
        },
    )
}

/// The summary of the machine's CPUs: sockets detected, CPUs detected,
/// online and offline, physical and logical cores (from the first online
/// CPU's record), and the sockets' and CPUs' entries.
pub fn get_cpu_global_infos(cpu_status: &Vec<(usize, bool)>, cpuinfofile: &HashMap<usize, CPUInfoFile>) -> (g: CpuGlobalInfo)
    requires
        distinct_ids(cpu_status@),
        global_counts(cpu_status@, records_view(cpuinfofile@)) is Some,
    ensures
        g.cpu_nbr_online + g.cpu_nbr_offline == g.cpu_nbr_detected,
        global_counts(cpu_status@, records_view(cpuinfofile@)) == Some(
            (
                g.socket_nbr_detected,
                g.cpu_nbr_detected,
                g.cpu_nbr_online,
                g.cpu_nbr_offline,
                g.cpu_nbr_physical,
                g.cpu_nbr_logical,
            ),
        ),
        entries_of(cpu_status@, records_view(cpuinfofile@), cpus_view(g.cpu@), sockets_view(g.socket@)),
{
    match try_get_cpu_global_infos(cpu_status, cpuinfofile) {
        Some(g) => g,
        None => CpuGlobalInfo {
            socket_nbr_detected: 0,
            cpu_nbr_detected: 0,
            cpu_nbr_online: 0,
            cpu_nbr_offline: 0,
            cpu_nbr_physical: 0,
            cpu_nbr_logical: 0,
            socket: HashMap::new(),
            cpu: HashMap::new(),
        },
    }
}

/// What the tool reports of the system: the summary of its CPUs.
pub fn get_system_infos(cpu_status: &Vec<(usize, bool)>, cpuinfofile: &HashMap<usize, CPUInfoFile>) -> (s: SystemInfo)
    requires
        distinct_ids(cpu_status@),
        global_counts(cpu_status@, records_view(cpuinfofile@)) is Some,
    ensures
        s.cpu.cpu_nbr_online + s.cpu.cpu_nbr_offline == s.cpu.cpu_nbr_detected,
        global_counts(cpu_status@, records_view(cpuinfofile@)) == Some(
            (
                s.cpu.socket_nbr_detected,
                s.cpu.cpu_nbr_detected,
                s.cpu.cpu_nbr_online,
                s.cpu.cpu_nbr_offline,
                s.cpu.cpu_nbr_physical,
                s.cpu.cpu_nbr_logical,
            ),
        ),
        entries_of(cpu_status@, records_view(cpuinfofile@), cpus_view(s.cpu.cpu@), sockets_view(s.cpu.socket@)),
{
    let cpu: CpuGlobalInfo = get_cpu_global_infos(cpu_status, cpuinfofile);
    SystemInfo { cpu }
}

/// The sockets listed are those of the online CPUs, each once, in order of
/// their first online CPU; each is keyed by that CPU.
pub proof fn law_sockets_listed_once(st: Seq<(usize, bool)>, m: Map<usize, CPUInfoFileView>, k: int)
    requires
        0 <= k <= st.len(),
        infos_upto(st, m, k) is Some,
    ensures
        ({
            let (ci, ls, si) = infos_upto(st, m, k)->0;
            &&& ls.no_duplicates()
            &&& forall|pid: usize|
                ls.contains(pid) <==> exists|i: int|
                    0 <= i < k && (#[trigger] st[i]).1 && m[st[i].0].physical_id == Some(pid)
            &&& forall|id: usize| #[trigger] si.contains_key(id) ==> si[id].id == m[id].physical_id->0
        }),
    decreases k,
{
    if k > 0 {
        if infos_upto(st, m, k - 1) is None {
            lemma_infos_fail(st, m, k - 1, k);
        }
        law_sockets_listed_once(st, m, k - 1);
        let (ci, ls, si) = infos_upto(st, m, k - 1)->0;
        let (ci2, ls2, si2) = infos_upto(st, m, k)->0;
        let (id, on) = st[k - 1];
        if on {
            let pid = m[id].physical_id->0;
            assert forall|p: usize| ls2.contains(p) <==> exists|i: int|
                0 <= i < k && (#[trigger] st[i]).1 && m[st[i].0].physical_id == Some(p) by {
                if ls2.contains(p) && !ls.contains(p) {
                    assert(p == pid);
                    assert(st[k - 1].1 && m[st[k - 1].0].physical_id == Some(p));
                }
                if exists|i: int| 0 <= i < k && (#[trigger] st[i]).1 && m[st[i].0].physical_id == Some(p) {
                    let i = choose|i: int| 0 <= i < k && (#[trigger] st[i]).1 && m[st[i].0].physical_id == Some(p);
                    if i < k - 1 {
                        assert(ls.contains(p));
                        if !ls.contains(pid) {
                            assert(ls2[ls.index_of(p)] == p);
                        }
                    } else {
                        if !ls.contains(pid) {
                            assert(ls2[ls.len() as int] == pid);
                        }
                    }
                }
            }
        } else {
            assert forall|p: usize| ls2.contains(p) <==> exists|i: int|
                0 <= i < k && (#[trigger] st[i]).1 && m[st[i].0].physical_id == Some(p) by {
                if exists|i: int| 0 <= i < k && (#[trigger] st[i]).1 && m[st[i].0].physical_id == Some(p) {
                    let i = choose|i: int| 0 <= i < k && (#[trigger] st[i]).1 && m[st[i].0].physical_id == Some(p);
                    assert(i < k - 1);
                }
            }
        }
    }
}

} // verus!

use check_sysstat_cpu::cpuinfo::{parse_cpuinfo, CPUInfoFile};
use check_sysstat_cpu::range::get_cpu_status;
use check_sysstat_cpu::topology::{
    get_cpu_global_infos, get_cpu_infos, get_system_infos, try_get_cpu_global_infos,
    try_get_cpu_infos,
};
use std::collections::HashMap;

fn lines(text: &str) -> Vec<String> {
    text.lines().map(|l| l.to_string()).collect()
}

const CPUINFO: &str = "processor\t: 0
vendor_id\t: GenuineIntel
cpu family\t: 6
model\t\t: 142
model name\t: Intel(R) Core(TM) i7-8550U CPU @ 1.80GHz
stepping\t: 10
microcode\t: 0xf4
cpu MHz\t\t: 1992.000
cache size\t: 8192 KB
physical id\t: 0
siblings\t: 2
core id\t\t: 0
cpu cores\t: 1
apicid\t\t: 0
initial apicid\t: 0
fpu\t\t: yes
fpu_exception\t: no
cpuid level\t: 22
wp\t\t: yes
flags\t\t: fpu vme de
bugs\t\t: spectre_v1  spectre_v2
bogomips\t: 3984.00
clflush size\t: 64
cache_alignment\t: 64
address sizes\t: 39 bits physical, 48 bits virtual
power management:

processor\t: 1
vendor_id\t: GenuineIntel
physical id\t: 0
siblings\t: 2
cpu cores\t: 1
cpu MHz\t\t: 2100.5

processor\t: 2
vendor_id\t: Unfinished
";

#[test]
fn cpuinfo_records_by_processor() {
    let cpus = parse_cpuinfo(&lines(CPUINFO));
    let mut keys: Vec<usize> = cpus.keys().copied().collect();
    keys.sort();
    assert_eq!(keys, vec![0, 1]);
    let c = &cpus[&0];
    assert_eq!(c.processor, 0);
    assert_eq!(c.vendor_id, "GenuineIntel");
    assert_eq!(c.cpu_family, 6);
    assert_eq!(c.model, 142);
    assert_eq!(c.model_name, "Intel(R) Core(TM) i7-8550U CPU @ 1.80GHz");
    assert_eq!(c.stepping, 10);
    assert_eq!(c.microcode.as_deref(), Some("0xf4"));
    assert_eq!(c.cpu_mhz, vec!["1992.000".to_string()]);
    assert_eq!(c.cache_size.as_deref(), Some("8192 KB"));
    assert_eq!((c.physical_id, c.siblings, c.core_id, c.cpu_cores), (Some(0), Some(2), Some(0), Some(1)));
    assert_eq!((c.apicid, c.initial_apicid), (Some(0), Some(0)));
    assert_eq!((c.fpu, c.fpu_exception, c.wp), (true, false, true));
    assert_eq!(c.cpuid_level, 22);
    assert_eq!(c.flags, "fpu vme de");
    assert_eq!(c.bugs, Some(vec!["spectre_v1".to_string(), "spectre_v2".to_string()]));
    assert_eq!(c.bogomips, vec!["3984.00".to_string()]);
    assert_eq!((c.clflush_size, c.cache_alignment), (Some(64), Some(64)));
    assert_eq!(c.address_sizes.as_deref(), Some("39 bits physical, 48 bits virtual"));
    let d = &cpus[&1];
    assert_eq!(d.cpu_mhz, vec!["2100.5".to_string()]);
    assert_eq!(d.model_name, "");
    assert_eq!(d.microcode, None);
}

#[test]
fn cpuinfo_number_fields() {
    let cpus = parse_cpuinfo(&lines("processor : x\ncpu family : -1\nphysical id : 3\nphysical id : ?\n\n"));
    let c = &cpus[&0];
    assert_eq!(c.cpu_family, 0);
    assert_eq!(c.physical_id, Some(3));
    let cpus = parse_cpuinfo(&lines("processor : 4\nmodel name : a: b\nvendor_id : late\n\n"));
    // the line with two colons closes the record
    assert_eq!(cpus[&4].vendor_id, "");
    assert_eq!(cpus[&0].vendor_id, "late");
}

#[test]
fn default_record() {
    let c = CPUInfoFile::default();
    assert_eq!(c.processor, 0);
    assert!(c.vendor_id.is_empty() && c.flags.is_empty());
    assert!(c.cpu_mhz.is_empty() && c.bogomips.is_empty());
    assert_eq!(c.physical_id, None);
    assert_eq!(c.bugs, None);
    assert!(!c.fpu);
    let copy = c.duplicate();
    assert_eq!(copy.cpuid_level, 0);
}

#[test]
fn cpu_entries_and_sockets() {
    let records = parse_cpuinfo(&lines(CPUINFO));
    let status = get_cpu_status("0-2", "0-1");
    let (cpus, sockets, socket_infos) = get_cpu_infos(&status, &records);
    assert_eq!(sockets, vec![0]);
    assert_eq!(cpus.len(), 3);
    assert_eq!(cpus[&0].online, "online");
    assert_eq!(cpus[&0].physical_id, Some(0));
    assert_eq!(cpus[&1].all_infos.cpu_mhz, vec!["2100.5".to_string()]);
    assert_eq!(cpus[&2].online, "offline");
    assert_eq!(cpus[&2].physical_id, None);
    assert_eq!(cpus[&2].all_infos.vendor_id, "");
    assert_eq!(socket_infos.len(), 1);
    let s = &socket_infos[&0];
    assert_eq!((s.id, s.cpu_family, s.model), (0, 6, 142));
    assert_eq!(s.vendor_id, "GenuineIntel");
    assert_eq!(s.cpu_mhz, vec!["1992.000".to_string()]);
}

#[test]
fn cpu_entries_refused_without_record() {
    let records: HashMap<usize, CPUInfoFile> = HashMap::new();
    assert!(try_get_cpu_infos(&vec![(0, true)], &records).is_none());
    let (cpus, sockets, _) = try_get_cpu_infos(&vec![(0, false)], &records).unwrap();
    assert_eq!(cpus.len(), 1);
    assert!(sockets.is_empty());
    let no_socket = parse_cpuinfo(&lines("processor : 0\n\n"));
    assert!(try_get_cpu_infos(&vec![(0, true)], &no_socket).is_none());
}

#[test]
fn global_counts() {
    let records = parse_cpuinfo(&lines(CPUINFO));
    let status = get_cpu_status("0-2", "0-1");
    let g = get_cpu_global_infos(&status, &records);
    assert_eq!(g.socket_nbr_detected, 1);
    assert_eq!((g.cpu_nbr_detected, g.cpu_nbr_online, g.cpu_nbr_offline), (3, 2, 1));
    assert_eq!((g.cpu_nbr_physical, g.cpu_nbr_logical), (1, 1));
    assert_eq!(g.cpu_nbr_online + g.cpu_nbr_offline, g.cpu_nbr_detected);
    let s = get_system_infos(&status, &records);
    assert_eq!(s.cpu.cpu_nbr_detected, 3);
}

#[test]
fn global_counts_refusals() {
    // siblings fewer than cores
    let records = parse_cpuinfo(&lines("processor : 0\nphysical id : 0\nsiblings : 1\ncpu cores : 2\n\n"));
    assert!(try_get_cpu_global_infos(&vec![(0, true)], &records).is_none());
    // no core count
    let records = parse_cpuinfo(&lines("processor : 0\nphysical id : 0\nsiblings : 1\n\n"));
    assert!(try_get_cpu_global_infos(&vec![(0, true)], &records).is_none());
    // all offline: no core count needed
    let g = try_get_cpu_global_infos(&vec![(0, false), (1, false)], &HashMap::new()).unwrap();
    assert_eq!((g.socket_nbr_detected, g.cpu_nbr_offline, g.cpu_nbr_physical), (0, 2, 0));
}

#[test]
fn two_sockets() {
    let text = "processor : 0\nphysical id : 0\nsiblings : 4\ncpu cores : 2\n\n\
                processor : 1\nphysical id : 1\nsiblings : 4\ncpu cores : 2\n\n\
                processor : 2\nphysical id : 0\nsiblings : 4\ncpu cores : 2\n\n";
    let records = parse_cpuinfo(&lines(text));
    let status = vec![(0, true), (1, true), (2, true)];
    let g = get_cpu_global_infos(&status, &records);
    assert_eq!(g.socket_nbr_detected, 2);
    assert_eq!((g.cpu_nbr_physical, g.cpu_nbr_logical), (4, 4));
    let (_, sockets, socket_infos) = get_cpu_infos(&status, &records);
    assert_eq!(sockets, vec![0, 1]);
    let mut keys: Vec<usize> = socket_infos.keys().copied().collect();
    keys.sort();
    assert_eq!(keys, vec![0, 1]);
    assert_eq!(socket_infos[&1].id, 1);
}

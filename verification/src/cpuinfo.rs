//! The per-CPU records of `/proc/cpuinfo`.
use std::collections::HashMap;
use vstd::prelude::*;

use crate::softirqs::lines_view;
use crate::text::{
    chars_eq_str, chars_of, opt_view, parse_usize, parse_usize_spec, split_at_char, split_char,
    split_words, string_of, trim, trim_chars, views, views_of_strings, words,
};

verus! {

/// One processor's record of `/proc/cpuinfo`. The clock speed ("cpu MHz")
/// and "bogomips" are decimal numbers: each holds the texts given for it,
/// in order, and the value is that of the last text that reads as a
/// number (none for the clock speed, 0 for bogomips, when no text does).
#[derive(Debug)]
pub struct CPUInfoFile {
    pub processor: usize,
    pub vendor_id: String,
    pub cpu_family: usize,
    pub model: usize,
    pub model_name: String,
    pub stepping: usize,
    pub microcode: Option<String>,
    pub cpu_mhz: Vec<String>,
    pub cache_size: Option<String>,
    pub physical_id: Option<usize>,
    pub siblings: Option<usize>,
    pub core_id: Option<usize>,
    pub cpu_cores: Option<usize>,
    pub apicid: Option<usize>,
    pub initial_apicid: Option<usize>,
    pub fpu: bool,
    pub fpu_exception: bool,
    pub cpuid_level: usize,
    pub wp: bool,
    pub flags: String,
    pub bugs: Option<Vec<String>>,
    pub bogomips: Vec<String>,
    pub clflush_size: Option<usize>,
    pub cache_alignment: Option<usize>,
    pub address_sizes: Option<String>,
}

/// A `CPUInfoFile` seen through the text of its strings.
pub struct CPUInfoFileView {
    pub processor: usize,
    pub vendor_id: Seq<char>,
    pub cpu_family: usize,
    pub model: usize,
    pub model_name: Seq<char>,
    pub stepping: usize,
    pub microcode: Option<Seq<char>>,
    pub cpu_mhz: Seq<Seq<char>>,
    pub cache_size: Option<Seq<char>>,
    pub physical_id: Option<usize>,
    pub siblings: Option<usize>,
    pub core_id: Option<usize>,
    pub cpu_cores: Option<usize>,
    pub apicid: Option<usize>,
    pub initial_apicid: Option<usize>,
    pub fpu: bool,
    pub fpu_exception: bool,
    pub cpuid_level: usize,
    pub wp: bool,
    pub flags: Seq<char>,
    pub bugs: Option<Seq<Seq<char>>>,
    pub bogomips: Seq<Seq<char>>,
    pub clflush_size: Option<usize>,
    pub cache_alignment: Option<usize>,
    pub address_sizes: Option<Seq<char>>,
}

/// The text of an optional list of strings.
pub open spec fn opt_strings_view(o: Option<Vec<String>>) -> Option<Seq<Seq<char>>> {
    match o {
        Some(v) => Some(views_of_strings(v@)),
        None => None,
    }
}

impl View for CPUInfoFile {
    type V = CPUInfoFileView;

    open spec fn view(&self) -> CPUInfoFileView {
        CPUInfoFileView {
            processor: self.processor,
            vendor_id: self.vendor_id@,
            cpu_family: self.cpu_family,
            model: self.model,
            model_name: self.model_name@,
            stepping: self.stepping,
            microcode: opt_view(self.microcode),
            cpu_mhz: views_of_strings(self.cpu_mhz@),
            cache_size: opt_view(self.cache_size),
            physical_id: self.physical_id,
            siblings: self.siblings,
            core_id: self.core_id,
            cpu_cores: self.cpu_cores,
            apicid: self.apicid,
            initial_apicid: self.initial_apicid,
            fpu: self.fpu,
            fpu_exception: self.fpu_exception,
            cpuid_level: self.cpuid_level,
            wp: self.wp,
            flags: self.flags@,
            bugs: opt_strings_view(self.bugs),
            bogomips: views_of_strings(self.bogomips@),
            clflush_size: self.clflush_size,
            cache_alignment: self.cache_alignment,
            address_sizes: opt_view(self.address_sizes),
        }
    }
}

/// The record before any field is read: numbers 0, texts empty, flags
/// false, optional fields absent.
pub open spec fn default_info() -> CPUInfoFileView {
    CPUInfoFileView {
        processor: 0,
        vendor_id: seq![],
        cpu_family: 0,
        model: 0,
        model_name: seq![],
        stepping: 0,
        microcode: None,
        cpu_mhz: seq![],
        cache_size: None,
        physical_id: None,
        siblings: None,
        core_id: None,
        cpu_cores: None,
        apicid: None,
        initial_apicid: None,
        fpu: false,
        fpu_exception: false,
        cpuid_level: 0,
        wp: false,
        flags: seq![],
        bugs: None,
        bogomips: seq![],
        clflush_size: None,
        cache_alignment: None,
        address_sizes: None,
    }
}

impl Default for CPUInfoFile {
    fn default() -> (r: Self)
        ensures
            r@ == default_info(),
    {
        let r = CPUInfoFile {
            processor: 0,
            vendor_id: String::new(),
            cpu_family: 0,
            model: 0,
            model_name: String::new(),
            stepping: 0,
            microcode: None,
            cpu_mhz: Vec::new(),
            cache_size: None,
            physical_id: None,
            siblings: None,
            core_id: None,
            cpu_cores: None,
            apicid: None,
            initial_apicid: None,
            fpu: false,
            fpu_exception: false,
            cpuid_level: 0,
            wp: false,
            flags: String::new(),
            bugs: None,
            bogomips: Vec::new(),
            clflush_size: None,
            cache_alignment: None,
            address_sizes: None,
        };
        assert(r@.cpu_mhz =~= seq![]);
        assert(r@.bogomips =~= seq![]);
        r
    }
}

/// A copy of an optional string.
pub fn copy_opt_string(o: &Option<String>) -> (r: Option<String>)
    ensures
        opt_view(r) == opt_view(*o),
{
    match o {
        Some(s) => Some(s.clone()),
        None => None,
    }
}

/// A copy of a list of strings.
pub fn copy_strings(v: &Vec<String>) -> (r: Vec<String>)
    ensures
        views_of_strings(r@) == views_of_strings(v@),
{
    let mut r: Vec<String> = Vec::new();
    for i in 0..v.len()
        invariant
            views_of_strings(r@) == views_of_strings(v@).take(i as int),
    {
        let ghost before = r@;
        let s = v[i].clone();
        r.push(s);
        assert(views_of_strings(r@) =~= views_of_strings(before).push(v@[i as int]@));
        assert(views_of_strings(v@).take(i as int + 1) =~= views_of_strings(v@).take(i as int).push(
            v@[i as int]@,
        ));
    }
    assert(views_of_strings(v@).take(v@.len() as int) =~= views_of_strings(v@));
    r
}

impl CPUInfoFile {
    /// A copy of the record.
    pub fn duplicate(&self) -> (r: CPUInfoFile)
        ensures
            r@ == self@,
    {
        let bugs = match &self.bugs {
            Some(b) => Some(copy_strings(b)),
            None => None,
        };
        CPUInfoFile {
            processor: self.processor,
            vendor_id: self.vendor_id.clone(),
            cpu_family: self.cpu_family,
            model: self.model,
            model_name: self.model_name.clone(),
            stepping: self.stepping,
            microcode: copy_opt_string(&self.microcode),
            cpu_mhz: copy_strings(&self.cpu_mhz),
            cache_size: copy_opt_string(&self.cache_size),
            physical_id: self.physical_id,
            siblings: self.siblings,
            core_id: self.core_id,
            cpu_cores: self.cpu_cores,
            apicid: self.apicid,
            initial_apicid: self.initial_apicid,
            fpu: self.fpu,
            fpu_exception: self.fpu_exception,
            cpuid_level: self.cpuid_level,
            wp: self.wp,
            flags: self.flags.clone(),
            bugs,
            bogomips: copy_strings(&self.bogomips),
            clflush_size: self.clflush_size,
            cache_alignment: self.cache_alignment,
            address_sizes: copy_opt_string(&self.address_sizes),
        }
    }
}

/// The value of a numeric field, 0 when it does not read as a number.
pub open spec fn number_or_zero(value: Seq<char>) -> usize {
    match parse_usize_spec(value) {
        Some(n) => n,
        None => 0,
    }
}

/// The value of an optional numeric field: the number read, or the former
/// value when the text does not read as a number.
pub open spec fn number_or_keep(value: Seq<char>, former: Option<usize>) -> Option<usize> {
    match parse_usize_spec(value) {
        Some(n) => Some(n),
        None => former,
    }
}

/// The record after reading the field `key : value` (both trimmed); an
/// unknown key leaves it as it is.
pub open spec fn apply_field(c: CPUInfoFileView, key: Seq<char>, value: Seq<char>) -> CPUInfoFileView {
    if key == "processor"@ {
        CPUInfoFileView { processor: number_or_zero(value), ..c }
    } else if key == "vendor_id"@ {
        CPUInfoFileView { vendor_id: value, ..c }
    } else if key == "cpu family"@ {
        CPUInfoFileView { cpu_family: number_or_zero(value), ..c }
    } else if key == "model"@ {
        CPUInfoFileView { model: number_or_zero(value), ..c }
    } else if key == "model name"@ {
        CPUInfoFileView { model_name: value, ..c }
    } else if key == "stepping"@ {
        CPUInfoFileView { stepping: number_or_zero(value), ..c }
    } else if key == "microcode"@ {
        CPUInfoFileView { microcode: Some(value), ..c }
    } else if key == "cpu MHz"@ {
        CPUInfoFileView { cpu_mhz: c.cpu_mhz.push(value), ..c }
    } else if key == "cache size"@ {
        CPUInfoFileView { cache_size: Some(value), ..c }
    } else if key == "physical id"@ {
        CPUInfoFileView { physical_id: number_or_keep(value, c.physical_id), ..c }
    } else if key == "siblings"@ {
        CPUInfoFileView { siblings: number_or_keep(value, c.siblings), ..c }
    } else if key == "core id"@ {
        CPUInfoFileView { core_id: number_or_keep(value, c.core_id), ..c }
    } else if key == "cpu cores"@ {
        CPUInfoFileView { cpu_cores: number_or_keep(value, c.cpu_cores), ..c }
    } else if key == "apicid"@ {
        CPUInfoFileView { apicid: number_or_keep(value, c.apicid), ..c }
    } else if key == "initial apicid"@ {
        CPUInfoFileView { initial_apicid: number_or_keep(value, c.initial_apicid), ..c }
    } else if key == "fpu"@ {
        CPUInfoFileView { fpu: value == "yes"@, ..c }
    } else if key == "fpu_exception"@ {
        CPUInfoFileView { fpu_exception: value == "yes"@, ..c }
    } else if key == "cpuid level"@ {
        CPUInfoFileView { cpuid_level: number_or_zero(value), ..c }
    } else if key == "wp"@ {
        CPUInfoFileView { wp: value == "yes"@, ..c }
    } else if key == "flags"@ {
        CPUInfoFileView { flags: value, ..c }
    } else if key == "bugs"@ {
        CPUInfoFileView { bugs: Some(words(value)), ..c }
    } else if key == "bogomips"@ {
        CPUInfoFileView { bogomips: c.bogomips.push(value), ..c }
    } else if key == "clflush size"@ {
        CPUInfoFileView { clflush_size: number_or_keep(value, c.clflush_size), ..c }
    } else if key == "cache_alignment"@ {
        CPUInfoFileView { cache_alignment: number_or_keep(value, c.cache_alignment), ..c }
    } else if key == "address sizes"@ {
        CPUInfoFileView { address_sizes: Some(value), ..c }
    } else {
        c
    }
}

/// The records of the processors done after the first `k` lines, keyed by
/// processor number (a later record replaces an earlier one of the same
/// number), and the record being read. A line that is not exactly one
/// `key : value` pair (a blank line) closes the record being read.
pub open spec fn cpuinfo_upto(lines: Seq<Seq<char>>, k: int) -> (Map<usize, CPUInfoFileView>, CPUInfoFileView)
    decreases k,
{
    if k <= 0 {
        (Map::empty(), default_info())
    } else {
        let (m, c) = cpuinfo_upto(lines, k - 1);
        let parts = split_char(lines[k - 1], ':');
        if parts.len() != 2 {
            (m.insert(c.processor, c), default_info())
        } else {
            (m, apply_field(c, trim(parts[0]), trim(parts[1])))
        }
    }
}

/// The records that `/proc/cpuinfo` (given line by line) holds, keyed by
/// processor number; a record not closed by a blank line is left out.
pub open spec fn cpuinfo_of(lines: Seq<Seq<char>>) -> Map<usize, CPUInfoFileView> {
    cpuinfo_upto(lines, lines.len() as int).0
}

/// The records of a map, seen through their text.
pub open spec fn infos_view(m: Map<usize, CPUInfoFile>) -> Map<usize, CPUInfoFileView> {
    m.map_values(|c: CPUInfoFile| c@)
}

/// Strings of the given characters.
fn strings_of(ws: &Vec<Vec<char>>) -> (r: Vec<String>)
    ensures
        views_of_strings(r@) == views(ws@),
{
    let mut r: Vec<String> = Vec::new();
    for i in 0..ws.len()
        invariant
            views_of_strings(r@) == views(ws@).take(i as int),
    {
        let ghost before = r@;
        let s = string_of(&ws[i]);
        assert(s@ == views(ws@)[i as int]);
        r.push(s);
        assert(views_of_strings(r@) =~= views_of_strings(before).push(views(ws@)[i as int]));
        assert(views(ws@).take(i as int + 1) =~= views(ws@).take(i as int).push(views(ws@)[i as int]));
    }
    assert(views(ws@).take(ws@.len() as int) =~= views(ws@));
    r
}

/// Reads one `key : value` field into the record.
fn read_field(c: &mut CPUInfoFile, key: &Vec<char>, value: &Vec<char>)
    ensures
        final(c)@ == apply_field(old(c)@, key@, value@),
{
    if chars_eq_str(key, "processor") {
        c.processor = match parse_usize(value) {
            Some(n) => n,
            None => 0,
        };
    } else if chars_eq_str(key, "vendor_id") {
        c.vendor_id = string_of(value);
    } else if chars_eq_str(key, "cpu family") {
        c.cpu_family = match parse_usize(value) {
            Some(n) => n,
            None => 0,
        };
    } else if chars_eq_str(key, "model") {
        c.model = match parse_usize(value) {
            Some(n) => n,
            None => 0,
        };
    } else if chars_eq_str(key, "model name") {
        c.model_name = string_of(value);
    } else if chars_eq_str(key, "stepping") {
        c.stepping = match parse_usize(value) {
            Some(n) => n,
            None => 0,
        };
    } else if chars_eq_str(key, "microcode") {
        c.microcode = Some(string_of(value));
    } else if chars_eq_str(key, "cpu MHz") {
        let ghost before = c.cpu_mhz@;
        c.cpu_mhz.push(string_of(value));
        assert(views_of_strings(c.cpu_mhz@) =~= views_of_strings(before).push(value@));
    } else if chars_eq_str(key, "cache size") {
        c.cache_size = Some(string_of(value));
    } else if chars_eq_str(key, "physical id") {
        match parse_usize(value) {
            Some(n) => c.physical_id = Some(n),
            None => {},
        }
    } else if chars_eq_str(key, "siblings") {
        match parse_usize(value) {
            Some(n) => c.siblings = Some(n),
            None => {},
        }
    } else if chars_eq_str(key, "core id") {
        match parse_usize(value) {
            Some(n) => c.core_id = Some(n),
            None => {},
        }
    } else if chars_eq_str(key, "cpu cores") {
        match parse_usize(value) {
            Some(n) => c.cpu_cores = Some(n),
            None => {},
        }
    } else if chars_eq_str(key, "apicid") {
        match parse_usize(value) {
            Some(n) => c.apicid = Some(n),
            None => {},
        }
    } else if chars_eq_str(key, "initial apicid") {
        match parse_usize(value) {
            Some(n) => c.initial_apicid = Some(n),
            None => {},
        }
    } else if chars_eq_str(key, "fpu") {
        c.fpu = chars_eq_str(value, "yes");
    } else if chars_eq_str(key, "fpu_exception") {
        c.fpu_exception = chars_eq_str(value, "yes");
    } else if chars_eq_str(key, "cpuid level") {
        c.cpuid_level = match parse_usize(value) {
            Some(n) => n,
            None => 0,
        };
    } else if chars_eq_str(key, "wp") {
        c.wp = chars_eq_str(value, "yes");
    } else if chars_eq_str(key, "flags") {
        c.flags = string_of(value);
    } else if chars_eq_str(key, "bugs") {
        c.bugs = Some(strings_of(&split_words(value)));
    } else if chars_eq_str(key, "bogomips") {
        let ghost before = c.bogomips@;
        c.bogomips.push(string_of(value));
        assert(views_of_strings(c.bogomips@) =~= views_of_strings(before).push(value@));
    } else if chars_eq_str(key, "clflush size") {
        match parse_usize(value) {
            Some(n) => c.clflush_size = Some(n),
            None => {},
        }
    } else if chars_eq_str(key, "cache_alignment") {
        match parse_usize(value) {
            Some(n) => c.cache_alignment = Some(n),
            None => {},
        }
    } else if chars_eq_str(key, "address sizes") {
        c.address_sizes = Some(string_of(value));
    }
}

/// Reads `/proc/cpuinfo`, given line by line, into one record per
/// processor, keyed by processor number.
pub fn parse_cpuinfo(lines: &Vec<String>) -> (cpus: HashMap<usize, CPUInfoFile>)
    ensures
        infos_view(cpus@) == cpuinfo_of(lines_view(lines@)),
{
    let ghost lv = lines_view(lines@);
    let mut cpus: HashMap<usize, CPUInfoFile> = HashMap::new();
    let mut cpu = CPUInfoFile::default();
    for k in 0..lines.len()
        invariant
            lv == lines_view(lines@),
            cpuinfo_upto(lv, k as int) == (infos_view(cpus@), cpu@),
    {
        assert(lv[k as int] == lines@[k as int]@);
        let line = chars_of(lines[k].as_str());
        let parts = split_at_char(&line, ':');
        if parts.len() != 2 {
            let ghost done = cpu@;
            let ghost before = cpus@;
            let p = cpu.processor;
            cpus.insert(p, cpu);
            assert(infos_view(cpus@) =~= infos_view(before).insert(p, done));
            cpu = CPUInfoFile::default();
        } else {
            let key = trim_chars(&parts[0]);
            let value = trim_chars(&parts[1]);
            read_field(&mut cpu, &key, &value);
        }
    }
    cpus
}

} // verus!

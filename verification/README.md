# check_sysstat_cpu

CPU statistics for Linux hosts, as a monitoring check: it reads `/proc/stat`,
`/proc/softirqs`, `/proc/cpuinfo` and the CPU range files under `/sys`,
compares the figures with those kept from its previous run, and prints
alerts and tables for a terminal (`--mode cli`) or as HTML (`--mode check`).

Layout:

- `src/` is the library, verified with Verus. Each parser takes the lines
  of its file and states, over a specification of the file format, what it
  returns and when it refuses the input. `laws.rs` holds the properties that
  span several functions (a comparison accounts for every CPU once, the
  stats file reads back, the softirq totals are the per-CPU sums, ...).
- `app/` is the command-line program: argument handling, file I/O, the JSON
  of the stats file, and the percentages and temperature, which are
  floating point.
- `tests/` runs the library on sample files.

//! What the text reports hold, cell by cell and line by line: the tables of
//! the "cli" and "check" modes, the alert tags and the software-interrupt
//! rates table.
use vstd::prelude::*;

use crate::history::trunc_div;
use crate::report::{
    alert_text, check_blocks_upto, check_cells_upto, check_pairs_upto, cli_blocks_upto,
    cli_pairs_upto, cli_row_upto, column_width, horizontal_table_text, repeat, utf8_len,
    vertical_table_text,
};
use crate::stat::{CpuSoftIrqs, CpuStatView};
use crate::summary::softirqs_table_spec;
use crate::text::int_text;

verus! {

proof fn lemma_flatten_new(f: spec_fn(int) -> Seq<char>, k: int)
    requires
        k >= 0,
    ensures
        Seq::new((k + 1) as nat, f).flatten() == Seq::new(k as nat, f).flatten() + f(k),
{
    assert(Seq::new((k + 1) as nat, f) =~= Seq::new(k as nat, f).push(f(k)));
    Seq::new(k as nat, f).lemma_flatten_push(f(k));
}

proof fn lemma_modes_differ()
    ensures
        "check"@ != "cli"@,
{
    reveal_strlit("cli");
    reveal_strlit("check");
    assert("check"@.len() == 5);
    assert("cli"@.len() == 3);
}

proof fn lemma_columns_differ()
    ensures
        "HI/s"@.len() == 4 && "HI/s"@[0] == 'H',
        "TIMER/s"@.len() == 7 && "TIMER/s"@[0] == 'T',
        "NET_TX/s"@.len() == 8 && "NET_TX/s"@[0] == 'N' && "NET_TX/s"@[4] == 'T',
        "NET_RX/s"@.len() == 8 && "NET_RX/s"@[0] == 'N' && "NET_RX/s"@[4] == 'R',
        "BLOCK/s"@.len() == 7 && "BLOCK/s"@[0] == 'B',
        "IRQ_POLL/s"@.len() == 10 && "IRQ_POLL/s"@[0] == 'I',
        "TASKLET/s"@.len() == 9 && "TASKLET/s"@[0] == 'T',
        "SCHED/s"@.len() == 7 && "SCHED/s"@[0] == 'S',
        "HRTIMER/s"@.len() == 9 && "HRTIMER/s"@[0] == 'H',
        "RCU/s"@.len() == 5 && "RCU/s"@[0] == 'R',
{
    reveal_strlit("HI/s");
    reveal_strlit("TIMER/s");
    reveal_strlit("NET_TX/s");
    reveal_strlit("NET_RX/s");
    reveal_strlit("BLOCK/s");
    reveal_strlit("IRQ_POLL/s");
    reveal_strlit("TASKLET/s");
    reveal_strlit("SCHED/s");
    reveal_strlit("HRTIMER/s");
    reveal_strlit("RCU/s");
}

// ---------------------------------------------------------------- horizontal tables

/// Cell `i` of a line in "cli" mode: its text, spaces up to 10 bytes, and
/// `| ` unless it is the last cell.
pub open spec fn cli_cell_at(cells: Seq<Seq<char>>) -> spec_fn(int) -> Seq<char> {
    |i: int|
        cells[i] + repeat(' ', 10 - utf8_len(cells[i])) + if i == cells.len() - 1 {
            Seq::<char>::empty()
        } else {
            "| "@
        }
}

/// The "cli" text of a line: its cells in order.
pub open spec fn cli_line_text(cells: Seq<Seq<char>>) -> Seq<char> {
    Seq::new(cells.len(), cli_cell_at(cells)).flatten()
}

/// Line `t` of a table in "cli" mode with its newline; the header (line 0)
/// between two rules of dashes as long as it is.
pub open spec fn cli_line_at(table: Seq<Seq<Seq<char>>>) -> spec_fn(int) -> Seq<char> {
    |t: int|
        {
            let row = cli_line_text(table[t]);
            let rule = repeat('-', utf8_len(row) as int) + "\n"@;
            if t == 0 {
                rule + row + "\n"@ + rule
            } else {
                row + "\n"@
            }
        }
}

/// Cell `i` of a line in "check" mode: a `<th>` cell on the header line, a
/// `<td>` cell (closed by `</th>`) on the others.
pub open spec fn check_cell_at(cells: Seq<Seq<char>>, header: bool) -> spec_fn(int) -> Seq<char> {
    |i: int|
        if header {
            "<th class='check-table-th'>"@ + cells[i] + "</th>"@
        } else {
            "<td class='check-table-td'>"@ + cells[i] + "</th>"@
        }
}

/// Line `t` of a table in "check" mode: its cells in order, between two
/// `<tr>`.
pub open spec fn check_line_at(table: Seq<Seq<Seq<char>>>) -> spec_fn(int) -> Seq<char> {
    |t: int| "<tr>"@ + Seq::new(table[t].len(), check_cell_at(table[t], t == 0)).flatten() + "<tr>"@
}

proof fn lemma_cli_row(cells: Seq<Seq<char>>, k: int)
    requires
        0 <= k <= cells.len(),
    ensures
        cli_row_upto(cells, k) == Seq::new(k as nat, cli_cell_at(cells)).flatten(),
    decreases k,
{
    if k > 0 {
        lemma_cli_row(cells, k - 1);
        lemma_flatten_new(cli_cell_at(cells), k - 1);
    } else {
        assert(Seq::new(0, cli_cell_at(cells)) =~= Seq::<Seq<char>>::empty());
    }
}

proof fn lemma_check_cells(cells: Seq<Seq<char>>, header: bool, k: int)
    requires
        0 <= k <= cells.len(),
    ensures
        check_cells_upto(cells, k, header) == Seq::new(k as nat, check_cell_at(cells, header)).flatten(),
    decreases k,
{
    if k > 0 {
        lemma_check_cells(cells, header, k - 1);
        lemma_flatten_new(check_cell_at(cells, header), k - 1);
    } else {
        assert(Seq::new(0, check_cell_at(cells, header)) =~= Seq::<Seq<char>>::empty());
    }
}

proof fn lemma_cli_blocks(table: Seq<Seq<Seq<char>>>, k: int)
    requires
        0 <= k <= table.len(),
    ensures
        cli_blocks_upto(table, k) == Seq::new(k as nat, cli_line_at(table)).flatten(),
    decreases k,
{
    if k > 0 {
        lemma_cli_blocks(table, k - 1);
        lemma_cli_row(table[k - 1], table[k - 1].len() as int);
        lemma_flatten_new(cli_line_at(table), k - 1);
    } else {
        assert(Seq::new(0, cli_line_at(table)) =~= Seq::<Seq<char>>::empty());
    }
}

proof fn lemma_check_blocks(table: Seq<Seq<Seq<char>>>, k: int)
    requires
        0 <= k <= table.len(),
    ensures
        check_blocks_upto(table, k) == Seq::new(k as nat, check_line_at(table)).flatten(),
    decreases k,
{
    if k > 0 {
        lemma_check_blocks(table, k - 1);
        lemma_check_cells(table[k - 1], k - 1 == 0, table[k - 1].len() as int);
        lemma_flatten_new(check_line_at(table), k - 1);
        assert(check_blocks_upto(table, k) =~= check_blocks_upto(table, k - 1) + check_line_at(table)(k - 1));
    } else {
        assert(Seq::new(0, check_line_at(table)) =~= Seq::<Seq<char>>::empty());
    }
}

/// A table laid out by `output_horizontal_table` is its lines in order,
/// each of them its cells in order: in "cli" mode each cell padded to 10
/// bytes and followed by `| ` (but the last), the header between two rules
/// of dashes; in "check" mode `<th>` cells on the header line, `<td>` cells
/// on the others, each line between two `<tr>`, the whole in a table. Any
/// other mode gives nothing.
pub proof fn law_horizontal_table_cells_in_order(mode: Seq<char>, table: Seq<Seq<Seq<char>>>)
    ensures
        horizontal_table_text("cli"@, table) == "\n"@ + Seq::new(table.len(), cli_line_at(table)).flatten(),
        horizontal_table_text("check"@, table) == "<br>"@ + "<table class='check-table'>"@ + Seq::new(
            table.len(),
            check_line_at(table),
        ).flatten() + "</table>"@,
        mode != "cli"@ && mode != "check"@ ==> horizontal_table_text(mode, table) == Seq::<char>::empty(),
{
    lemma_modes_differ();
    lemma_cli_blocks(table, table.len() as int);
    lemma_check_blocks(table, table.len() as int);
}

// ---------------------------------------------------------------- vertical tables

/// Entry `i` of a table of pairs in "cli" mode: the key padded to `kw`
/// characters, ` | `, the value padded to `vw` characters, a newline.
pub open spec fn cli_pair_at(es: Seq<(Seq<char>, Seq<char>)>, kw: nat, vw: nat) -> spec_fn(int) -> Seq<char> {
    |i: int|
        es[i].0 + repeat(' ', kw - es[i].0.len()) + " | "@ + es[i].1 + repeat(' ', vw - es[i].1.len())
            + "\n"@
}

/// Entry `i` of a table of pairs in "check" mode: one row, the key in a
/// `<th>` cell and the value in a `<td>` cell.
pub open spec fn check_pair_at(es: Seq<(Seq<char>, Seq<char>)>) -> spec_fn(int) -> Seq<char> {
    |i: int|
        "<tr>"@ + "<th class='check-table-th'>"@ + es[i].0 + "</th>"@ + "<td class='check-table-td'>"@
            + es[i].1 + "</td>"@ + "</tr>"@
}

proof fn lemma_cli_pairs(es: Seq<(Seq<char>, Seq<char>)>, kw: nat, vw: nat, k: int)
    requires
        0 <= k <= es.len(),
    ensures
        cli_pairs_upto(es, k, kw, vw) == Seq::new(k as nat, cli_pair_at(es, kw, vw)).flatten(),
    decreases k,
{
    if k > 0 {
        lemma_cli_pairs(es, kw, vw, k - 1);
        lemma_flatten_new(cli_pair_at(es, kw, vw), k - 1);
    } else {
        assert(Seq::new(0, cli_pair_at(es, kw, vw)) =~= Seq::<Seq<char>>::empty());
    }
}

proof fn lemma_check_pairs(es: Seq<(Seq<char>, Seq<char>)>, k: int)
    requires
        0 <= k <= es.len(),
    ensures
        check_pairs_upto(es, k) == Seq::new(k as nat, check_pair_at(es)).flatten(),
    decreases k,
{
    if k > 0 {
        lemma_check_pairs(es, k - 1);
        lemma_flatten_new(check_pair_at(es), k - 1);
    } else {
        assert(Seq::new(0, check_pair_at(es)) =~= Seq::<Seq<char>>::empty());
    }
}

/// The width that an entry asks of its column.
pub open spec fn width_of(e: (Seq<char>, Seq<char>), keys: bool) -> nat {
    if keys {
        utf8_len(e.0)
    } else {
        utf8_len(e.1)
    }
}

proof fn lemma_column_width(es: Seq<(Seq<char>, Seq<char>)>, keys: bool)
    ensures
        forall|i: int| 0 <= i < es.len() ==> #[trigger] width_of(es[i], keys) <= column_width(es, keys),
        es.len() == 0 ==> column_width(es, keys) == 0,
        es.len() > 0 ==> exists|i: int| 0 <= i < es.len() && #[trigger] width_of(es[i], keys) == column_width(es, keys),
    decreases es.len(),
{
    if es.len() > 0 {
        let w = es.drop_last();
        lemma_column_width(w, keys);
        let n = es.len() - 1;
        assert(es.last() == es[n]);
        assert forall|i: int| 0 <= i < es.len() implies #[trigger] width_of(es[i], keys) <= column_width(es, keys) by {
            if i < n {
                assert(es[i] == w[i]);
                assert(width_of(w[i], keys) <= column_width(w, keys));
            }
        }
        if width_of(es[n], keys) > column_width(w, keys) {
            assert(width_of(es[n], keys) == column_width(es, keys));
        } else if w.len() > 0 {
            let j = choose|j: int| 0 <= j < w.len() && #[trigger] width_of(w[j], keys) == column_width(w, keys);
            assert(es[j] == w[j]);
            assert(width_of(es[j], keys) == column_width(es, keys));
        } else {
            assert(width_of(es[n], keys) == column_width(es, keys));
        }
    }
}

/// A table of pairs laid out by `output_vertical_table` is its entries in
/// order. In "cli" mode each line is the key padded to the widest key, ` | `
/// and the value padded to the widest value (widths in bytes, the largest
/// of the table's), after a line holding a space and, with a separator,
/// between two rules of dashes 4 longer than the two widths; in "check"
/// mode each entry is a row with a `<th>` key and a `<td>` value.
pub proof fn law_vertical_table_entries_in_order(mode: Seq<char>, separator: bool, es: Seq<(Seq<char>, Seq<char>)>)
    ensures
        ({
            let kw = column_width(es, true);
            let vw = column_width(es, false);
            let rule = if separator {
                repeat('-', (kw + vw + 4) as int) + "\n"@
            } else {
                Seq::<char>::empty()
            };
            &&& vertical_table_text("cli"@, separator, es) == " \n"@ + rule + Seq::new(
                es.len(),
                cli_pair_at(es, kw, vw),
            ).flatten() + rule
            &&& vertical_table_text("check"@, separator, es) == "<br>"@ + "<table class='check-table'>"@
                + Seq::new(es.len(), check_pair_at(es)).flatten() + "</table>"@
            &&& mode != "cli"@ && mode != "check"@ ==> vertical_table_text(mode, separator, es)
                == Seq::<char>::empty()
        }),
        forall|i: int| 0 <= i < es.len() ==> utf8_len(#[trigger] es[i].0) <= column_width(es, true),
        forall|i: int| 0 <= i < es.len() ==> utf8_len(#[trigger] es[i].1) <= column_width(es, false),
        es.len() == 0 ==> column_width(es, true) == 0 && column_width(es, false) == 0,
        es.len() > 0 ==> exists|i: int| 0 <= i < es.len() && utf8_len(#[trigger] es[i].0) == column_width(es, true),
        es.len() > 0 ==> exists|i: int| 0 <= i < es.len() && utf8_len(#[trigger] es[i].1) == column_width(es, false),
{
    lemma_modes_differ();
    let kw = column_width(es, true);
    let vw = column_width(es, false);
    lemma_cli_pairs(es, kw, vw, es.len() as int);
    lemma_check_pairs(es, es.len() as int);
    lemma_column_width(es, true);
    lemma_column_width(es, false);
    assert forall|i: int| 0 <= i < es.len() implies utf8_len(#[trigger] es[i].0) <= column_width(es, true) by {
        assert(width_of(es[i], true) <= column_width(es, true));
    }
    assert forall|i: int| 0 <= i < es.len() implies utf8_len(#[trigger] es[i].1) <= column_width(es, false) by {
        assert(width_of(es[i], false) <= column_width(es, false));
    }
    if es.len() > 0 {
        let a = choose|i: int| 0 <= i < es.len() && #[trigger] width_of(es[i], true) == column_width(es, true);
        assert(utf8_len(es[a].0) == column_width(es, true));
        let b = choose|i: int| 0 <= i < es.len() && #[trigger] width_of(es[i], false) == column_width(es, false);
        assert(utf8_len(es[b].1) == column_width(es, false));
    }
}

// ---------------------------------------------------------------- alerts

/// An alert is its tag, then its message: `[OK]`, `[WARNING]`, `[CRITICAL]`,
/// `[UNKNOWN]` for codes 0 to 3 in "cli" mode, the same words in colored
/// HTML spans in "check" mode; no tag for another code; nothing in another
/// mode.
pub proof fn law_alert_tags(mode: Seq<char>, code: usize, m: Seq<char>)
    ensures
        alert_text("cli"@, 0, m) == "[OK] "@ + m,
        alert_text("cli"@, 1, m) == "[WARNING] "@ + m,
        alert_text("cli"@, 2, m) == "[CRITICAL] "@ + m,
        alert_text("cli"@, 3, m) == "[UNKNOWN] "@ + m,
        alert_text("check"@, 0, m) == "<span style='color:#2baf14;font-weight: bold;'>[OK]</span> "@ + m,
        alert_text("check"@, 1, m) == "<span style='color:#e48c19;font-weight: bold;'>[WARNING]</span> "@
            + m,
        alert_text("check"@, 2, m) == "<span style='color:#e41919;font-weight: bold;'>[CRITICAL]</span> "@
            + m,
        alert_text("check"@, 3, m) == "<span style='color:#e41919;font-weight: bold;'>[UNKNOWN]</span> "@
            + m,
        code > 3 ==> alert_text("cli"@, code, m) == m && alert_text("check"@, code, m) == m,
        mode != "cli"@ && mode != "check"@ ==> alert_text(mode, code, m) == Seq::<char>::empty(),
{
    lemma_modes_differ();
    assert(Seq::<char>::empty() + m =~= m);
}

// ---------------------------------------------------------------- the softirq table

/// The count of `q` that a column of the software-interrupt table names.
pub open spec fn count_named(q: CpuSoftIrqs, column: Seq<char>) -> i64 {
    if column == "HI/s"@ {
        q.hi
    } else if column == "TIMER/s"@ {
        q.timer
    } else if column == "NET_TX/s"@ {
        q.net_tx
    } else if column == "NET_RX/s"@ {
        q.net_rx
    } else if column == "BLOCK/s"@ {
        q.block
    } else if column == "IRQ_POLL/s"@ {
        q.irq_poll
    } else if column == "TASKLET/s"@ {
        q.tasklet
    } else if column == "SCHED/s"@ {
        q.sched
    } else if column == "HRTIMER/s"@ {
        q.hrtimer
    } else if column == "RCU/s"@ {
        q.rcu
    } else {
        0
    }
}

/// The software-interrupt table has the header "CPU", "HI/s", "TIMER/s",
/// "NET_TX/s", "NET_RX/s", "BLOCK/s", "IRQ_POLL/s", "TASKLET/s", "SCHED/s",
/// "HRTIMER/s", "RCU/s"; after it (but on the first run) one line per CPU in
/// order, holding the CPU's name ("all" for "cpu") and, under each column,
/// the count that the column names divided by the seconds elapsed, rounded
/// toward zero.
pub proof fn law_softirqs_table_columns(stats: Seq<CpuStatView>, d: i64, first_start: bool)
    ensures
        ({
            let t = softirqs_table_spec(stats, d, first_start);
            &&& t.len() == if first_start {
                1
            } else {
                stats.len() + 1
            }
            &&& t[0] == seq![
                "CPU"@,
                "HI/s"@,
                "TIMER/s"@,
                "NET_TX/s"@,
                "NET_RX/s"@,
                "BLOCK/s"@,
                "IRQ_POLL/s"@,
                "TASKLET/s"@,
                "SCHED/s"@,
                "HRTIMER/s"@,
                "RCU/s"@,
            ]
            &&& !first_start ==> forall|i: int|
                0 <= i < stats.len() ==> {
                    &&& (#[trigger] t[i + 1]).len() == 11
                    &&& t[i + 1][0] == if stats[i].name == "cpu"@ {
                        "all"@
                    } else {
                        stats[i].name
                    }
                    &&& forall|j: int|
                        1 <= j < 11 ==> #[trigger] t[i + 1][j] == int_text(
                            trunc_div(count_named(stats[i].softirqs, t[0][j]) as int, d as int),
                        )
                }
        }),
{
    let t = softirqs_table_spec(stats, d, first_start);
    lemma_columns_differ();
    if !first_start {
        assert forall|i: int| 0 <= i < stats.len() implies {
            &&& (#[trigger] t[i + 1]).len() == 11
            &&& t[i + 1][0] == if stats[i].name == "cpu"@ {
                "all"@
            } else {
                stats[i].name
            }
            &&& forall|j: int|
                1 <= j < 11 ==> #[trigger] t[i + 1][j] == int_text(
                    trunc_div(count_named(stats[i].softirqs, t[0][j]) as int, d as int),
                )
        } by {
            let q = stats[i].softirqs;
            assert(t[i + 1] == crate::summary::softirqs_line(stats[i], d));
            assert(t[0] == crate::summary::softirqs_header());
            assert(count_named(q, "HI/s"@) == q.hi);
            assert(count_named(q, "TIMER/s"@) == q.timer);
            assert(count_named(q, "NET_TX/s"@) == q.net_tx);
            assert(count_named(q, "NET_RX/s"@) == q.net_rx);
            assert(count_named(q, "BLOCK/s"@) == q.block);
            assert(count_named(q, "IRQ_POLL/s"@) == q.irq_poll);
            assert(count_named(q, "TASKLET/s"@) == q.tasklet);
            assert(count_named(q, "SCHED/s"@) == q.sched);
            assert(count_named(q, "HRTIMER/s"@) == q.hrtimer);
            assert(count_named(q, "RCU/s"@) == q.rcu);
        }
    }
}

/// A rate is the count divided by the seconds, rounded toward zero: the
/// quotient times the divisor leaves a remainder smaller than the divisor,
/// of the sign of the count.
pub proof fn law_rate_rounds_toward_zero(x: int, d: int)
    requires
        d != 0,
    ensures
        ({
            let q = trunc_div(x, d);
            let r = x - q * d;
            &&& (if r >= 0 { r } else { -r }) < (if d >= 0 { d } else { -d })
            &&& r == 0 || (r > 0 <==> x > 0)
        }),
{
    let q = trunc_div(x, d);
    if x > 0 && d > 0 {
        assert(x - (x / d) * d >= 0 && x - (x / d) * d < d) by (nonlinear_arith)
            requires
                x > 0,
                d > 0,
        ;
    } else if x < 0 && d < 0 {
        assert((-x) - ((-x) / (-d)) * (-d) >= 0 && (-x) - ((-x) / (-d)) * (-d) < -d) by (nonlinear_arith)
            requires
                x < 0,
                d < 0,
        ;
        assert(x - ((-x) / (-d)) * d == -((-x) - ((-x) / (-d)) * (-d))) by (nonlinear_arith);
    } else if x < 0 && d > 0 {
        assert((-x) - ((-x) / d) * d >= 0 && (-x) - ((-x) / d) * d < d) by (nonlinear_arith)
            requires
                x < 0,
                d > 0,
        ;
        assert(x - (-((-x) / d)) * d == -((-x) - ((-x) / d) * d)) by (nonlinear_arith);
    } else if x > 0 && d < 0 {
        assert(x - (x / (-d)) * (-d) >= 0 && x - (x / (-d)) * (-d) < -d) by (nonlinear_arith)
            requires
                x > 0,
                d < 0,
        ;
        assert(x - (-(x / (-d))) * d == x - (x / (-d)) * (-d)) by (nonlinear_arith);
    }
}

} // verus!

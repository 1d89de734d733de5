//! The text reports: alert lines, and tables laid out for a terminal
//! ("cli" mode) or as HTML for a monitoring check ("check" mode). Any other
//! mode ("json") gives an empty report.
use linked_hash_map::LinkedHashMap;
use vstd::prelude::*;

use crate::linked::{change_table_entries, change_table_rows, text_table_entries, text_table_rows};
use crate::text::{chars_of, chars_eq_str, int_text, i64_to_string, push_char, push_chars, push_str};

verus! {

/// The number of bytes of the UTF-8 encoding of `s` (what `str::len` counts).
pub open spec fn utf8_len(s: Seq<char>) -> nat {
    vstd::utf8::encode_utf8(s).len()
}

/// `n` copies of `c` (none when `n <= 0`).
pub open spec fn repeat(c: char, n: int) -> Seq<char> {
    Seq::new(if n > 0 { n as nat } else { 0 }, |i: int| c)
}

/// Appends `n` copies of `c` to `s`.
fn push_repeat(s: &mut String, c: char, n: usize)
    ensures
        final(s)@ == old(s)@ + repeat(c, n as int),
{
    for i in 0..n
        invariant
            s@ == old(s)@ + repeat(c, i as int),
    {
        push_char(s, c);
        assert(s@ =~= old(s)@ + repeat(c, i as int + 1));
    }
}

proof fn lemma_utf8_len_concat(a: Seq<char>, b: Seq<char>)
    ensures
        utf8_len(a + b) == utf8_len(a) + utf8_len(b),
    decreases a.len(),
{
    if a.len() > 0 {
        assert((a + b).drop_first() =~= a.drop_first() + b);
        assert((a + b)[0] == a[0]);
        lemma_utf8_len_concat(a.drop_first(), b);
    } else {
        assert(a + b =~= b);
    }
}

proof fn lemma_utf8_len_ascii(s: Seq<char>)
    requires
        vstd::utf8::is_ascii_chars(s),
    ensures
        utf8_len(s) == s.len(),
{
    vstd::utf8::is_ascii_chars_encode_utf8(s);
}

/// The byte length of a string.
fn byte_len(s: &String) -> (n: usize)
    requires
        utf8_len(s@) <= usize::MAX,
    ensures
        n == utf8_len(s@),
{
    s.as_str().len()
}

// ---------------------------------------------------------------- alerts

/// The tag that opens an alert line in "cli" mode.
pub open spec fn cli_alert_tag(code: usize) -> Seq<char> {
    if code == 0 {
        "[OK] "@
    } else if code == 1 {
        "[WARNING] "@
    } else if code == 2 {
        "[CRITICAL] "@
    } else if code == 3 {
        "[UNKNOWN] "@
    } else {
        seq![]
    }
}

/// The tag that opens an alert line in "check" mode.
pub open spec fn check_alert_tag(code: usize) -> Seq<char> {
    if code == 0 {
        "<span style='color:#2baf14;font-weight: bold;'>[OK]</span> "@
    } else if code == 1 {
        "<span style='color:#e48c19;font-weight: bold;'>[WARNING]</span> "@
    } else if code == 2 {
        "<span style='color:#e41919;font-weight: bold;'>[CRITICAL]</span> "@
    } else if code == 3 {
        "<span style='color:#e41919;font-weight: bold;'>[UNKNOWN]</span> "@
    } else {
        seq![]
    }
}

/// An alert: the tag of its code (0 OK, 1 warning, 2 critical, 3 unknown)
/// followed by the message; empty in any mode but "cli" and "check".
pub open spec fn alert_text(mode: Seq<char>, code: usize, message: Seq<char>) -> Seq<char> {
    if mode == "cli"@ {
        cli_alert_tag(code) + message
    } else if mode == "check"@ {
        check_alert_tag(code) + message
    } else {
        seq![]
    }
}

/// Formats an alert line.
pub fn output_alert(output_mode: &str, code: usize, message: String) -> (output: String)
    ensures
        output@ == alert_text(output_mode@, code, message@),
{
    let mut output = String::new();
    let mode = chars_of(output_mode);
    if chars_eq_str(&mode, "cli") {
        if code == 0 {
            push_str(&mut output, "[OK] ");
        } else if code == 1 {
            push_str(&mut output, "[WARNING] ");
        } else if code == 2 {
            push_str(&mut output, "[CRITICAL] ");
        } else if code == 3 {
            push_str(&mut output, "[UNKNOWN] ");
        }
        push_str(&mut output, message.as_str());
    } else if chars_eq_str(&mode, "check") {
        if code == 0 {
            push_str(&mut output, "<span style='color:#2baf14;font-weight: bold;'>[OK]</span> ");
        } else if code == 1 {
            push_str(
                &mut output,
                "<span style='color:#e48c19;font-weight: bold;'>[WARNING]</span> ",
            );
        } else if code == 2 {
            push_str(
                &mut output,
                "<span style='color:#e41919;font-weight: bold;'>[CRITICAL]</span> ",
            );
        } else if code == 3 {
            push_str(
                &mut output,
                "<span style='color:#e41919;font-weight: bold;'>[UNKNOWN]</span> ",
            );
        }
        push_str(&mut output, message.as_str());
    }
    output
}

/// The message of the alert for a short interval between two runs.
pub open spec fn interval_message(lastchecktime: i64) -> Seq<char> {
    "Interval between two executions is too short, the information may be erroneous. It is advisable to wait at least 2 seconds before a second execution. Last interval ("@
        + int_text(lastchecktime as int) + "s)"@
}

/// The critical alert given when the previous run is less than 2 seconds
/// old, or `None`.
pub fn interval_alert(output_mode: &str, lastchecktime: i64) -> (r: Option<String>)
    ensures
        r matches Some(a) ==> a@ == alert_text(output_mode@, 2, interval_message(lastchecktime)),
        r is Some <==> lastchecktime < 2,
{
    if lastchecktime < 2 {
        let mut message = String::new();
        push_str(
            &mut message,
            "Interval between two executions is too short, the information may be erroneous. It is advisable to wait at least 2 seconds before a second execution. Last interval (",
        );
        push_str(&mut message, i64_to_string(lastchecktime).as_str());
        push_str(&mut message, "s)");
        assert(message@ =~= interval_message(lastchecktime));
        Some(output_alert(output_mode, 2, message))
    } else {
        None
    }
}

/// The alerts of the first `n` entries of a change table: for each CPU but
/// the totals line "cpu", an "unknown" alert "<name> : <change>".
pub open spec fn change_alerts_upto(mode: Seq<char>, es: Seq<(Seq<char>, Seq<char>)>, n: int) -> Seq<char>
    decreases n,
{
    if n <= 0 {
        seq![]
    } else {
        change_alerts_upto(mode, es, n - 1) + if es[n - 1].0 == "cpu"@ {
            Seq::<char>::empty()
        } else {
            alert_text(mode, 3, es[n - 1].0 + " : "@ + es[n - 1].1)
        }
    }
}

/// The alerts for the CPUs added or removed since the previous run, in the
/// order of the change table.
pub fn change_alerts(output_mode: &str, changes: &LinkedHashMap<String, &'static str>) -> (r: String)
    ensures
        r@ == change_alerts_upto(
            output_mode@,
            change_table_entries(*changes),
            change_table_entries(*changes).len() as int,
        ),
{
    let ghost es = change_table_entries(*changes);
    let rows = change_table_rows(changes);
    assert(rows@.len() == es.len());
    let mut out = String::new();
    for i in 0..rows.len()
        invariant
            rows@.map_values(|e: (String, &'static str)| (e.0@, e.1@)) == es,
            out@ == change_alerts_upto(output_mode@, es, i as int),
    {
        assert(es[i as int] == (rows@[i as int].0@, rows@[i as int].1@));
        let name = &rows[i].0;
        if !chars_eq_str(&chars_of(name.as_str()), "cpu") {
            let mut message = name.clone();
            push_str(&mut message, " : ");
            push_str(&mut message, rows[i].1);
            let a = output_alert(output_mode, 3, message);
            let ghost before = out@;
            push_str(&mut out, a.as_str());
            assert(out@ =~= before + alert_text(output_mode@, 3, es[i as int].0 + " : "@ + es[i as int].1));
        } else {
            assert(out@ =~= change_alerts_upto(output_mode@, es, i as int) + Seq::<char>::empty());
        }
    }
    out
}

// ---------------------------------------------------------------- horizontal tables

/// The text of each cell of each line of a table.
pub open spec fn table_view(table: Seq<Vec<String>>) -> Seq<Seq<Seq<char>>> {
    table.map_values(|line: Vec<String>| line@.map_values(|c: String| c@))
}

/// A cell in "cli" mode: the text padded with spaces to 10 bytes, then a
/// `| ` separator unless it is the last cell of its line.
pub open spec fn cli_cell(c: Seq<char>, last: bool) -> Seq<char> {
    c + repeat(' ', 10 - utf8_len(c)) + if last {
        Seq::<char>::empty()
    } else {
        "| "@
    }
}

/// The first `k` cells of a line in "cli" mode.
pub open spec fn cli_row_upto(cells: Seq<Seq<char>>, k: int) -> Seq<char>
    decreases k,
{
    if k <= 0 {
        seq![]
    } else {
        cli_row_upto(cells, k - 1) + cli_cell(cells[k - 1], k - 1 == cells.len() - 1)
    }
}

/// A line in "cli" mode, followed by a newline; the first line (the
/// header) stands between two rules of dashes as long, in bytes, as it is.
pub open spec fn cli_block(cells: Seq<Seq<char>>, first: bool) -> Seq<char> {
    let row = cli_row_upto(cells, cells.len() as int);
    let rule = repeat('-', utf8_len(row) as int) + "\n"@;
    if first {
        rule + row + "\n"@ + rule
    } else {
        row + "\n"@
    }
}

/// The first `k` lines of a table in "cli" mode.
pub open spec fn cli_blocks_upto(table: Seq<Seq<Seq<char>>>, k: int) -> Seq<char>
    decreases k,
{
    if k <= 0 {
        seq![]
    } else {
        cli_blocks_upto(table, k - 1) + cli_block(table[k - 1], k - 1 == 0)
    }
}

/// A cell in "check" mode: a header cell on the first line, a data cell
/// (closed by `</th>`) elsewhere.
pub open spec fn check_cell(c: Seq<char>, header: bool) -> Seq<char> {
    if header {
        "<th class='check-table-th'>"@ + c + "</th>"@
    } else {
        "<td class='check-table-td'>"@ + c + "</th>"@
    }
}

/// The first `k` cells of a line in "check" mode.
pub open spec fn check_cells_upto(cells: Seq<Seq<char>>, k: int, header: bool) -> Seq<char>
    decreases k,
{
    if k <= 0 {
        seq![]
    } else {
        check_cells_upto(cells, k - 1, header) + check_cell(cells[k - 1], header)
    }
}

/// The first `k` lines of a table in "check" mode, each between two `<tr>`.
pub open spec fn check_blocks_upto(table: Seq<Seq<Seq<char>>>, k: int) -> Seq<char>
    decreases k,
{
    if k <= 0 {
        seq![]
    } else {
        check_blocks_upto(table, k - 1) + "<tr>"@ + check_cells_upto(
            table[k - 1],
            table[k - 1].len() as int,
            k - 1 == 0,
        ) + "<tr>"@
    }
}

/// A table given line by line, the first line being the header.
pub open spec fn horizontal_table_text(mode: Seq<char>, table: Seq<Seq<Seq<char>>>) -> Seq<char> {
    if mode == "cli"@ {
        "\n"@ + cli_blocks_upto(table, table.len() as int)
    } else if mode == "check"@ {
        "<br>"@ + "<table class='check-table'>"@ + check_blocks_upto(table, table.len() as int)
            + "</table>"@
    } else {
        seq![]
    }
}

/// Every cell takes at most 10 bytes, as the "cli" layout needs.
pub open spec fn cells_fit(table: Seq<Seq<Seq<char>>>) -> bool {
    forall|t: int, i: int|
        0 <= t < table.len() && 0 <= i < table[t].len() ==> utf8_len(#[trigger] table[t][i]) <= 10
}

proof fn lemma_cli_cell_len(c: Seq<char>, last: bool)
    requires
        utf8_len(c) <= 10,
    ensures
        utf8_len(cli_cell(c, last)) == if last {
            10int
        } else {
            12int
        },
{
    let pad = repeat(' ', 10 - utf8_len(c));
    let sep = if last {
        Seq::<char>::empty()
    } else {
        "| "@
    };
    reveal_strlit("| ");
    lemma_utf8_len_ascii(pad);
    lemma_utf8_len_ascii(sep);
    lemma_utf8_len_concat(c, pad);
    lemma_utf8_len_concat(c + pad, sep);
}

/// In "cli" mode every line of `n` cells that fit takes `12 n - 2` bytes:
/// the columns line up.
pub proof fn law_cli_lines_align(cells: Seq<Seq<char>>, k: int)
    requires
        0 <= k <= cells.len(),
        forall|i: int| 0 <= i < cells.len() ==> utf8_len(#[trigger] cells[i]) <= 10,
    ensures
        utf8_len(cli_row_upto(cells, k)) == 12 * k - if k == cells.len() && k > 0 {
            2int
        } else {
            0int
        },
    decreases k,
{
    if k > 0 {
        law_cli_lines_align(cells, k - 1);
        lemma_cli_cell_len(cells[k - 1], k - 1 == cells.len() - 1);
        lemma_utf8_len_concat(cli_row_upto(cells, k - 1), cli_cell(cells[k - 1], k - 1 == cells.len() - 1));
    } else {
        assert(utf8_len(Seq::<char>::empty()) == 0);
    }
}

/// The "cli" text of one line, and the rule of dashes as long as it.
fn cli_line(line: &Vec<String>) -> (r: (String, String))
    requires
        forall|i: int| 0 <= i < line@.len() ==> utf8_len(#[trigger] line@[i]@) <= 10,
    ensures
        r.0@ == cli_row_upto(line@.map_values(|c: String| c@), line@.len() as int),
        r.1@ == repeat('-', utf8_len(r.0@) as int),
{
    let ghost cells = line@.map_values(|c: String| c@);
    let mut temp = String::new();
    let mut rule = String::new();
    proof {
        assert(utf8_len(temp@) == 0);
        assert(rule@ =~= repeat('-', 0));
    }
    for i in 0..line.len()
        invariant
            cells == line@.map_values(|c: String| c@),
            forall|j: int| 0 <= j < line@.len() ==> utf8_len(#[trigger] line@[j]@) <= 10,
            temp@ == cli_row_upto(cells, i as int),
            rule@ == repeat('-', utf8_len(temp@) as int),
    {
        let ghost before = temp@;
        let ghost c = cells[i as int];
        assert(c == line@[i as int]@);
        push_str(&mut temp, line[i].as_str());
        let n = byte_len(&line[i]);
        push_repeat(&mut temp, ' ', 10 - n);
        push_repeat(&mut rule, '-', 10);
        let last = i == line.len() - 1;
        if !last {
            push_str(&mut temp, "| ");
            push_repeat(&mut rule, '-', 2);
        }
        proof {
            let pad = repeat(' ', 10 - utf8_len(c));
            let sep = if last {
                Seq::<char>::empty()
            } else {
                "| "@
            };
            reveal_strlit("| ");
            assert(temp@ =~= before + (c + pad + sep));
            assert(cli_cell(c, last) == c + pad + sep);
            lemma_utf8_len_ascii(pad);
            lemma_utf8_len_ascii(sep);
            lemma_utf8_len_concat(c, pad);
            lemma_utf8_len_concat(c + pad, sep);
            lemma_utf8_len_concat(before, c + pad + sep);
            assert(rule@ =~= repeat('-', utf8_len(temp@) as int));
        }
    }
    (temp, rule)
}

/// Lays out a table given line by line, the first line being the header.
/// In "cli" mode each cell is padded to 10 bytes, which it must not exceed.
#[verifier::spinoff_prover]
#[verifier::rlimit(30)]
pub fn output_horizontal_table(output_mode: &str, separator: bool, table: Vec<Vec<String>>) -> (output: String)
    requires
        output_mode@ == "cli"@ ==> cells_fit(table_view(table@)),
    ensures
        output@ == horizontal_table_text(output_mode@, table_view(table@)),
{
    let ghost tv = table_view(table@);
    let mut output = String::new();
    let mode = chars_of(output_mode);
    if chars_eq_str(&mode, "cli") {
        push_str(&mut output, "\n");
        let ghost start = output@;
        for t in 0..table.len()
            invariant
                tv == table_view(table@),
                output_mode@ == "cli"@ ==> cells_fit(tv),
                mode@ == "cli"@,
                mode@ == output_mode@,
                output@ == start + cli_blocks_upto(tv, t as int),
        {
            let line = &table[t];
            assert(tv[t as int] == line@.map_values(|c: String| c@));
            assert forall|i: int| 0 <= i < line@.len() implies utf8_len(#[trigger] line@[i]@)
                <= 10 by {
                assert(tv[t as int][i] == line@[i]@);
            }
            let (temp, rule) = cli_line(line);
            let ghost before = output@;
            if t == 0 {
                push_str(&mut output, rule.as_str());
                push_str(&mut output, "\n");
            }
            push_str(&mut output, temp.as_str());
            push_str(&mut output, "\n");
            if t == 0 {
                push_str(&mut output, rule.as_str());
                push_str(&mut output, "\n");
            }
            assert(output@ =~= before + cli_block(tv[t as int], t == 0));
        }
    } else if chars_eq_str(&mode, "check") {
        push_str(&mut output, "<br>");
        push_str(&mut output, "<table class='check-table'>");
        let ghost start = output@;
        for t in 0..table.len()
            invariant
                tv == table_view(table@),
                output@ == start + check_blocks_upto(tv, t as int),
        {
            let line = &table[t];
            let mut temp = String::new();
            push_str(&mut output, "<tr>");
            let ghost cells = tv[t as int];
            assert(cells == line@.map_values(|c: String| c@));
            for i in 0..line.len()
                invariant
                    cells == line@.map_values(|c: String| c@),
                    temp@ == check_cells_upto(cells, i as int, t == 0),
            {
                let ghost before = temp@;
                assert(cells[i as int] == line@[i as int]@);
                if t == 0 {
                    push_str(&mut temp, "<th class='check-table-th'>");
                } else {
                    push_str(&mut temp, "<td class='check-table-td'>");
                }
                push_str(&mut temp, line[i].as_str());
                push_str(&mut temp, "</th>");
                assert(temp@ =~= before + check_cell(cells[i as int], t == 0));
            }
            push_str(&mut output, temp.as_str());
            push_str(&mut output, "<tr>");
        }
        push_str(&mut output, "</table>");
    }
    output
}

// ---------------------------------------------------------------- vertical tables

/// The largest byte length of the keys (`keys`) or of the values of `es`, 0
/// when there is no entry.
pub open spec fn column_width(es: Seq<(Seq<char>, Seq<char>)>, keys: bool) -> nat
    decreases es.len(),
{
    if es.len() == 0 {
        0
    } else {
        let w = column_width(es.drop_last(), keys);
        let n = if keys {
            utf8_len(es.last().0)
        } else {
            utf8_len(es.last().1)
        };
        if n > w {
            n
        } else {
            w
        }
    }
}

/// A key-value line in "cli" mode: each side left-aligned and padded with
/// spaces to its column's width (counted in characters, as `format!` pads).
pub open spec fn cli_pair(k: Seq<char>, v: Seq<char>, kw: nat, vw: nat) -> Seq<char> {
    k + repeat(' ', kw - k.len()) + " | "@ + v + repeat(' ', vw - v.len()) + "\n"@
}

/// The first `n` lines of key-value pairs in "cli" mode.
pub open spec fn cli_pairs_upto(es: Seq<(Seq<char>, Seq<char>)>, n: int, kw: nat, vw: nat) -> Seq<char>
    decreases n,
{
    if n <= 0 {
        seq![]
    } else {
        cli_pairs_upto(es, n - 1, kw, vw) + cli_pair(es[n - 1].0, es[n - 1].1, kw, vw)
    }
}

/// A key-value line in "check" mode.
pub open spec fn check_pair(k: Seq<char>, v: Seq<char>) -> Seq<char> {
    "<tr>"@ + "<th class='check-table-th'>"@ + k + "</th>"@ + "<td class='check-table-td'>"@ + v
        + "</td>"@ + "</tr>"@
}

/// The first `n` lines of key-value pairs in "check" mode.
pub open spec fn check_pairs_upto(es: Seq<(Seq<char>, Seq<char>)>, n: int) -> Seq<char>
    decreases n,
{
    if n <= 0 {
        seq![]
    } else {
        check_pairs_upto(es, n - 1) + check_pair(es[n - 1].0, es[n - 1].1)
    }
}

/// A table of key-value pairs, one per line. In "cli" mode, with
/// `separator`, the lines stand between two rules of dashes as long as the
/// two column widths and 4 more.
pub open spec fn vertical_table_text(mode: Seq<char>, separator: bool, es: Seq<(Seq<char>, Seq<char>)>) -> Seq<char> {
    let kw = column_width(es, true);
    let vw = column_width(es, false);
    if mode == "cli"@ {
        let rule = if separator {
            repeat('-', (kw + vw + 4) as int) + "\n"@
        } else {
            Seq::<char>::empty()
        };
        " \n"@ + rule + cli_pairs_upto(es, es.len() as int, kw, vw) + rule
    } else if mode == "check"@ {
        "<br>"@ + "<table class='check-table'>"@ + check_pairs_upto(es, es.len() as int)
            + "</table>"@
    } else {
        seq![]
    }
}

/// The column widths of the "cli" layout can be counted in a `usize`.
pub open spec fn widths_fit(es: Seq<(Seq<char>, Seq<char>)>, separator: bool) -> bool {
    &&& column_width(es, true) <= usize::MAX
    &&& column_width(es, false) <= usize::MAX
    &&& separator ==> column_width(es, true) + column_width(es, false) + 4 <= usize::MAX
}

proof fn lemma_column_width_prefix(es: Seq<(Seq<char>, Seq<char>)>, i: int, keys: bool)
    requires
        0 <= i <= es.len(),
    ensures
        column_width(es.take(i), keys) <= column_width(es, keys),
        i < es.len() ==> (if keys {
            utf8_len(es[i].0)
        } else {
            utf8_len(es[i].1)
        }) <= column_width(es, keys),
    decreases es.len() - i,
{
    if i < es.len() {
        lemma_column_width_prefix(es, i + 1, keys);
        assert(es.take(i + 1).drop_last() =~= es.take(i));
    } else {
        assert(es.take(i) =~= es);
    }
}

/// Lays out a table of key-value pairs, in the order of the table.
pub fn output_vertical_table(output_mode: &str, separator: bool, table: LinkedHashMap<String, String>) -> (output: String)
    requires
        output_mode@ == "cli"@ ==> widths_fit(text_table_entries(table), separator),
    ensures
        output@ == vertical_table_text(output_mode@, separator, text_table_entries(table)),
{
    let ghost es = text_table_entries(table);
    let rows = text_table_rows(&table);
    assert(rows@.map_values(|e: (String, String)| (e.0@, e.1@)) == es);
    assert(rows@.len() == es.len());
    let mut output = String::new();
    let mode = chars_of(output_mode);
    if chars_eq_str(&mode, "cli") {
        let mut kw: usize = 0;
        let mut vw: usize = 0;
        for i in 0..rows.len()
            invariant
                rows@.map_values(|e: (String, String)| (e.0@, e.1@)) == es,
                widths_fit(es, separator),
                kw == column_width(es.take(i as int), true),
                vw == column_width(es.take(i as int), false),
        {
            assert(es.take(i as int + 1).drop_last() =~= es.take(i as int));
            assert(es[i as int] == (rows@[i as int].0@, rows@[i as int].1@));
            proof {
                lemma_column_width_prefix(es, i as int, true);
                lemma_column_width_prefix(es, i as int, false);
            }
            let lk = byte_len(&rows[i].0);
            let lv = byte_len(&rows[i].1);
            if lk > kw {
                kw = lk;
            }
            if lv > vw {
                vw = lv;
            }
        }
        assert(es.take(rows@.len() as int) =~= es);
        push_str(&mut output, " \n");
        let mut rule = String::new();
        if separator {
            push_repeat(&mut rule, '-', kw + vw + 4);
            push_str(&mut rule, "\n");
        }
        push_str(&mut output, rule.as_str());
        let ghost start = output@;
        for i in 0..rows.len()
            invariant
                rows@.map_values(|e: (String, String)| (e.0@, e.1@)) == es,
                kw == column_width(es, true),
                vw == column_width(es, false),
                output@ == start + cli_pairs_upto(es, i as int, kw as nat, vw as nat),
        {
            let ghost before = output@;
            let k = &rows[i].0;
            let v = &rows[i].1;
            assert(es[i as int] == (k@, v@));
            let kc = chars_of(k.as_str());
            let vc = chars_of(v.as_str());
            push_chars(&mut output, &kc);
            let kpad: usize = if kw > kc.len() {
                kw - kc.len()
            } else {
                0
            };
            push_repeat(&mut output, ' ', kpad);
            push_str(&mut output, " | ");
            push_chars(&mut output, &vc);
            let vpad: usize = if vw > vc.len() {
                vw - vc.len()
            } else {
                0
            };
            push_repeat(&mut output, ' ', vpad);
            push_str(&mut output, "\n");
            assert(repeat(' ', kpad as int) =~= repeat(' ', kw - k@.len()));
            assert(repeat(' ', vpad as int) =~= repeat(' ', vw - v@.len()));
            assert(output@ =~= before + cli_pair(k@, v@, kw as nat, vw as nat));
        }
        push_str(&mut output, rule.as_str());
    } else if chars_eq_str(&mode, "check") {
        push_str(&mut output, "<br>");
        push_str(&mut output, "<table class='check-table'>");
        let ghost start = output@;
        for i in 0..rows.len()
            invariant
                rows@.map_values(|e: (String, String)| (e.0@, e.1@)) == es,
                output@ == start + check_pairs_upto(es, i as int),
        {
            let ghost before = output@;
            let k = &rows[i].0;
            let v = &rows[i].1;
            assert(es[i as int] == (k@, v@));
            push_str(&mut output, "<tr>");
            push_str(&mut output, "<th class='check-table-th'>");
            push_str(&mut output, k.as_str());
            push_str(&mut output, "</th>");
            push_str(&mut output, "<td class='check-table-td'>");
            push_str(&mut output, v.as_str());
            push_str(&mut output, "</td>");
            push_str(&mut output, "</tr>");
            assert(output@ =~= before + check_pair(k@, v@));
        }
        push_str(&mut output, "</table>");
    }
    output
}

} // verus!

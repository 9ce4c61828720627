//! The spreadsheet report of a sweep: one worksheet, and the package around it.

use vstd::prelude::*;

use crate::engine::Backend;
use crate::format::SampleFormat;
use crate::opts::backend_text;
use crate::text::{
    bytes_of, decimal, fields, has_substring, is_free_of, joined, law_numerals_differ,
    law_substrings_nest, lemma_decimal_is_free_of, lemma_joined_agrees, lemma_joined_holds, lemma_next_field,
    lemma_one_field, lemma_part_at_end, lemma_part_of_part, lemma_part_stays, lemma_regroup,
    push_decimal, utf8,
};
use crate::zip::{archive, stored, zip_store, Entry};

verus! {

/// One successful run. Figures that are not whole numbers come as text.
pub struct Row {
    pub rate: u32,
    pub backend: String,
    pub mode: String,
    pub req_format: String,
    pub act_format: String,
    pub req_block: u32,
    pub act_block: u32,
    pub min_f: u32,
    pub median_f: u32,
    pub mean_f: String,
    pub max_f: u32,
    pub min_ms: String,
    pub median_ms: String,
    pub mean_ms: String,
    pub max_ms: String,
    pub jitter: u32,
}

/// The line below a cell.
#[derive(Clone, Copy, PartialEq, Eq, Debug, Structural)]
pub enum Edge {
    Plain,
    Dotted,
    Thin,
    Thick,
}

/// The letter of column `c`, counted from 0: the character so far behind `A`, by
/// the low byte of `c`.
pub open spec fn letter(c: int) -> char {
    (65 + c % 256) as char
}

pub fn col_letter(c: usize) -> (r: char)
    requires
        c % 256 <= 190,
    ensures
        r == letter(c as int),
{
    (65 + (c % 256) as u8) as char
}

/// `c` as it stands in XML text.
pub open spec fn escaped_char(c: char) -> Seq<char> {
    if c == '&' {
        "&amp;"@
    } else if c == '<' {
        "&lt;"@
    } else if c == '>' {
        "&gt;"@
    } else {
        seq![c]
    }
}

/// `s` as it stands in XML text.
pub open spec fn escaped(s: Seq<char>) -> Seq<char> {
    joined(s.len(), |i: int| escaped_char(s[i]))
}

pub fn esc(s: &str) -> (r: String)
    ensures
        r@ == escaped(s@),
{
    let mut out = String::new();
    let n: usize = s.unicode_len();
    let ghost part = |i: int| escaped_char(s@[i]);
    let mut i: usize = 0;
    while i < n
        invariant
            i <= n == s@.len(),
            part == (|i: int| escaped_char(s@[i])),
            out@ == joined(i as nat, part),
        decreases n - i,
    {
        let c: char = s.get_char(i);
        if c == '&' {
            out.append("&amp;");
        } else if c == '<' {
            out.append("&lt;");
        } else if c == '>' {
            out.append("&gt;");
        } else {
            out.push(c);
        }
        i = i + 1;
        assert(out@ =~= joined(i as nat, part));
    }
    out
}

spec fn is_plain(s: Seq<char>) -> bool {
    forall|i: int| 0 <= i < s.len() ==> #[trigger] s[i] != '<' && s[i] != '>'
}

proof fn lemma_escaped_is_plain(s: Seq<char>, n: nat)
    requires
        n <= s.len(),
    ensures
        is_plain(joined(n, |k: int| escaped_char(s[k]))),
    decreases n,
{
    if n > 0 {
        lemma_escaped_is_plain(s, (n - 1) as nat);
        reveal_strlit("&amp;");
        reveal_strlit("&lt;");
        reveal_strlit("&gt;");
        assert(is_plain(escaped_char(s[n - 1])));
    }
}

/// Escaped text never opens or closes a tag.
pub proof fn law_escaped_text_holds_no_markup(s: Seq<char>, i: int)
    requires
        0 <= i < escaped(s).len(),
    ensures
        escaped(s)[i] != '<',
        escaped(s)[i] != '>',
{
    lemma_escaped_is_plain(s, s.len());
}

pub open spec fn num_cell_text(col: char, row: nat, style: nat, v: Seq<char>) -> Seq<char> {
    "<c r=\""@.push(col) + decimal(row) + "\" s=\""@ + decimal(style) + "\"><v>"@ + v + "</v></c>"@
}

/// A cell that holds a number.
pub fn num_cell(col: char, row: usize, style: u32, v: &str) -> (r: String)
    ensures
        r@ == num_cell_text(col, row as nat, style as nat, v@),
{
    let mut s = "<c r=\"".to_owned();
    s.push(col);
    push_decimal(&mut s, row as u64);
    s.append("\" s=\"");
    push_decimal(&mut s, style as u64);
    s.append("\"><v>");
    s.append(v);
    s.append("</v></c>");
    s
}

pub open spec fn str_cell_text(col: char, row: nat, style: nat, v: Seq<char>) -> Seq<char> {
    "<c r=\""@.push(col) + decimal(row) + "\" s=\""@ + decimal(style)
        + "\" t=\"inlineStr\"><is><t>"@ + escaped(v) + "</t></is></c>"@
}

/// A cell that holds a text.
pub fn str_cell(col: char, row: usize, style: u32, v: &str) -> (r: String)
    ensures
        r@ == str_cell_text(col, row as nat, style as nat, v@),
{
    let mut s = "<c r=\"".to_owned();
    s.push(col);
    push_decimal(&mut s, row as u64);
    s.append("\" s=\"");
    push_decimal(&mut s, style as u64);
    s.append("\" t=\"inlineStr\"><is><t>");
    s.append(esc(v).as_str());
    s.append("</t></is></c>");
    s
}

pub open spec fn empty_cell_text(col: char, row: nat, style: nat) -> Seq<char> {
    "<c r=\""@.push(col) + decimal(row) + "\" s=\""@ + decimal(style) + "\"/>"@
}

/// A cell that holds nothing but its style.
pub fn empty_cell(col: char, row: usize, style: u32) -> (r: String)
    ensures
        r@ == empty_cell_text(col, row as nat, style as nat),
{
    let mut s = "<c r=\"".to_owned();
    s.push(col);
    push_decimal(&mut s, row as u64);
    s.append("\" s=\"");
    push_decimal(&mut s, style as u64);
    s.append("\"/>");
    s
}

/// Whether the group of rows of one rate ends at row `i`.
pub open spec fn rate_end(rows: Seq<Row>, i: int) -> bool {
    i + 1 == rows.len() || rows[i + 1].rate != rows[i].rate
}

/// Whether the group of rows of one backend ends at row `i`.
pub open spec fn backend_end(rows: Seq<Row>, i: int) -> bool {
    rate_end(rows, i) || rows[i + 1].backend@ != rows[i].backend@
}

/// Whether the group of rows of one mode ends at row `i`.
pub open spec fn mode_end(rows: Seq<Row>, i: int) -> bool {
    backend_end(rows, i) || rows[i + 1].mode@ != rows[i].mode@
}

/// Whether the group of rows of one mode and requested format ends at row `i`.
pub open spec fn fmt_end(rows: Seq<Row>, i: int) -> bool {
    mode_end(rows, i) || rows[i + 1].req_format@ != rows[i].req_format@
}

/// Which groups end at a row.
pub struct Ends {
    pub rate: bool,
    pub backend: bool,
    pub mode: bool,
    pub fmt: bool,
}

fn ends_at(rows: &[Row], i: usize) -> (r: Ends)
    requires
        i < rows@.len(),
        rows@.len() < usize::MAX,
    ensures
        r.rate == rate_end(rows@, i as int),
        r.backend == backend_end(rows@, i as int),
        r.mode == mode_end(rows@, i as int),
        r.fmt == fmt_end(rows@, i as int),
{
    if i + 1 == rows.len() {
        return Ends { rate: true, backend: true, mode: true, fmt: true };
    }
    let a: &Row = &rows[i];
    let b: &Row = &rows[i + 1];
    let rate: bool = b.rate != a.rate;
    let backend: bool = rate || !(b.backend == a.backend);
    let mode: bool = backend || !(b.mode == a.mode);
    let fmt: bool = mode || !(b.req_format == a.req_format);
    Ends { rate, backend, mode, fmt }
}

/// The line below the merged cells of a group that ends at row `i`.
pub open spec fn group_kind(rows: Seq<Row>, i: int) -> Edge {
    if rate_end(rows, i) {
        Edge::Thick
    } else if backend_end(rows, i) {
        Edge::Thin
    } else {
        Edge::Dotted
    }
}

/// The line below the other cells of row `i`.
pub open spec fn row_kind(rows: Seq<Row>, i: int) -> Edge {
    if rate_end(rows, i) {
        Edge::Thick
    } else if backend_end(rows, i) {
        Edge::Thin
    } else if fmt_end(rows, i) || rows[i].req_block == 0 {
        Edge::Dotted
    } else {
        Edge::Plain
    }
}

/// The style numbers of the workbook's style sheet, by the line below.
pub open spec fn general_style(e: Edge) -> u32 {
    match e {
        Edge::Plain => 4,
        Edge::Dotted => 5,
        Edge::Thin => 14,
        Edge::Thick => 17,
    }
}

pub open spec fn ms_style(e: Edge) -> u32 {
    match e {
        Edge::Plain => 10,
        Edge::Dotted => 6,
        Edge::Thin => 15,
        Edge::Thick => 18,
    }
}

pub open spec fn jitter_style(e: Edge) -> u32 {
    match e {
        Edge::Plain => 9,
        Edge::Dotted => 7,
        Edge::Thin => 11,
        Edge::Thick => 19,
    }
}

pub open spec fn covered_style(e: Edge) -> u32 {
    match e {
        Edge::Dotted => 12,
        Edge::Thin => 13,
        _ => 16,
    }
}

fn s_general(e: Edge) -> (r: u32)
    ensures
        r == general_style(e),
{
    match e {
        Edge::Plain => 4,
        Edge::Dotted => 5,
        Edge::Thin => 14,
        Edge::Thick => 17,
    }
}

fn s_ms(e: Edge) -> (r: u32)
    ensures
        r == ms_style(e),
{
    match e {
        Edge::Plain => 10,
        Edge::Dotted => 6,
        Edge::Thin => 15,
        Edge::Thick => 18,
    }
}

fn s_jitter(e: Edge) -> (r: u32)
    ensures
        r == jitter_style(e),
{
    match e {
        Edge::Plain => 9,
        Edge::Dotted => 7,
        Edge::Thin => 11,
        Edge::Thick => 19,
    }
}

fn s_covered(e: Edge) -> (r: u32)
    ensures
        r == covered_style(e),
{
    match e {
        Edge::Dotted => 12,
        Edge::Thin => 13,
        _ => 16,
    }
}

/// What rows must share to share a merged cell in column `c`.
pub open spec fn merge_key(row: Row, c: int) -> Seq<char> {
    let rate = decimal(row.rate as nat);
    if c == 0 {
        rate
    } else if c == 1 {
        rate + "|"@ + row.backend@
    } else if c == 2 {
        rate + "|"@ + row.backend@ + "|"@ + row.mode@
    } else if c == 3 {
        rate + "|"@ + row.backend@ + "|"@ + row.mode@ + "|"@ + row.req_format@
    } else {
        rate + "|"@ + row.backend@ + "|"@ + row.mode@ + "|"@ + row.req_format@ + "|"@
            + row.act_format@
    }
}

fn merged_key(row: &Row, c: usize) -> (r: String)
    ensures
        r@ == merge_key(*row, c as int),
{
    let mut s = crate::text::decimal_string(row.rate as u64);
    if c > 0 {
        s.append("|");
        s.append(row.backend.as_str());
        if c > 1 {
            s.append("|");
            s.append(row.mode.as_str());
            if c > 2 {
                s.append("|");
                s.append(row.req_format.as_str());
                if c > 3 {
                    s.append("|");
                    s.append(row.act_format.as_str());
                }
            }
        }
    }
    s
}

/// Whether rows `i` and `i + 1` fall apart in column `c`.
pub open spec fn key_changes(rows: Seq<Row>, i: int, c: int) -> bool {
    merge_key(rows[i], c) != merge_key(rows[i + 1], c)
}

fn keys_differ(rows: &[Row], i: usize, c: usize) -> (r: bool)
    requires
        i + 1 < rows@.len(),
    ensures
        r == key_changes(rows@, i as int, c as int),
{
    let a = merged_key(&rows[i], c);
    let b = merged_key(&rows[i + 1], c);
    !(a == b)
}

/// Whether a merged cell begins at row `i` of column `c`.
pub open spec fn is_run_start(rows: Seq<Row>, i: int, c: int) -> bool {
    i == 0 || key_changes(rows, i - 1, c)
}

/// Whether the group that column `c` shows ends at row `i`.
pub open spec fn group_ends(rows: Seq<Row>, i: int, c: int) -> bool {
    if c == 0 {
        rate_end(rows, i)
    } else if c == 1 {
        backend_end(rows, i)
    } else if c == 2 {
        mode_end(rows, i)
    } else {
        fmt_end(rows, i)
    }
}

/// The value that column `c`, one of the first five, shows for a row.
pub open spec fn config_cell_text(rows: Seq<Row>, i: int, c: int) -> Seq<char> {
    let row = rows[i];
    let r = (i + 2) as nat;
    let style = if group_ends(rows, i, c) {
        general_style(group_kind(rows, i)) as nat
    } else {
        4
    };
    if is_run_start(rows, i, c) {
        if c == 0 {
            num_cell_text('A', r, style, decimal(row.rate as nat))
        } else if c == 1 {
            str_cell_text('B', r, style, row.backend@)
        } else if c == 2 {
            str_cell_text('C', r, style, row.mode@)
        } else if c == 3 {
            str_cell_text('D', r, style, row.req_format@)
        } else {
            str_cell_text('E', r, style, row.act_format@)
        }
    } else if group_ends(rows, i, c) {
        empty_cell_text(letter(c), r, covered_style(group_kind(rows, i)) as nat)
    } else {
        Seq::empty()
    }
}

fn config_cell(rows: &[Row], i: usize, c: usize) -> (r: String)
    requires
        i < rows@.len(),
        rows@.len() + 2 <= usize::MAX,
        c < 5,
    ensures
        r@ == config_cell_text(rows@, i as int, c as int),
{
    let row: &Row = &rows[i];
    let e: Ends = ends_at(rows, i);
    let start: bool = i == 0 || keys_differ(rows, i - 1, c);
    let ends: bool = if c == 0 {
        e.rate
    } else if c == 1 {
        e.backend
    } else if c == 2 {
        e.mode
    } else {
        e.fmt
    };
    let kind: Edge = if e.rate {
        Edge::Thick
    } else if e.backend {
        Edge::Thin
    } else {
        Edge::Dotted
    };
    if start {
        let style: u32 = if ends {
            s_general(kind)
        } else {
            4
        };
        if c == 0 {
            let rate = crate::text::decimal_string(row.rate as u64);
            num_cell('A', i + 2, style, rate.as_str())
        } else if c == 1 {
            str_cell('B', i + 2, style, row.backend.as_str())
        } else if c == 2 {
            str_cell('C', i + 2, style, row.mode.as_str())
        } else if c == 3 {
            str_cell('D', i + 2, style, row.req_format.as_str())
        } else {
            str_cell('E', i + 2, style, row.act_format.as_str())
        }
    } else if ends {
        empty_cell(col_letter(c), i + 2, s_covered(kind))
    } else {
        String::new()
    }
}

/// The style of the note beside row `i` of `n`.
pub open spec fn note_style(i: int, n: nat) -> nat {
    if i + 1 == n {
        19
    } else if i == 0 {
        8
    } else if i == 5 {
        11
    } else {
        9
    }
}

/// The note beside row `i`: a text where there is one, an empty cell otherwise.
pub open spec fn note_cell_text(notes: Seq<String>, i: int, n: nat) -> Seq<char> {
    if i < notes.len() && notes[i]@.len() > 0 {
        str_cell_text('Q', (i + 2) as nat, note_style(i, n), notes[i]@)
    } else {
        empty_cell_text('Q', (i + 2) as nat, note_style(i, n))
    }
}

fn note_cell(notes: &[String], i: usize, n: usize) -> (r: String)
    requires
        i < n,
        n + 2 <= usize::MAX,
    ensures
        r@ == note_cell_text(notes@, i as int, n as nat),
{
    let style: u32 = if i + 1 == n {
        19
    } else if i == 0 {
        8
    } else if i == 5 {
        11
    } else {
        9
    };
    if i < notes.len() && notes[i].as_str().unicode_len() > 0 {
        str_cell('Q', i + 2, style, notes[i].as_str())
    } else {
        empty_cell('Q', i + 2, style)
    }
}

/// The requested block size: a number, or `auto`.
pub open spec fn req_block_text(row: Row, r: nat, style: nat) -> Seq<char> {
    if row.req_block == 0 {
        str_cell_text('F', r, style, "auto"@)
    } else {
        num_cell_text('F', r, style, decimal(row.req_block as nat))
    }
}

/// The figures of row `i`, in columns F to P.
pub open spec fn figures_text(rows: Seq<Row>, i: int) -> Seq<char> {
    let row = rows[i];
    let r = (i + 2) as nat;
    let kind = row_kind(rows, i);
    let g = general_style(kind) as nat;
    let m = ms_style(kind) as nat;
    let j = jitter_style(kind) as nat;
    req_block_text(row, r, g) + num_cell_text('G', r, g, decimal(row.act_block as nat))
        + num_cell_text('H', r, g, decimal(row.min_f as nat)) + num_cell_text(
        'I',
        r,
        g,
        decimal(row.median_f as nat),
    ) + num_cell_text('J', r, g, row.mean_f@) + num_cell_text('K', r, g, decimal(row.max_f as nat))
        + num_cell_text('L', r, m, row.min_ms@) + num_cell_text('M', r, m, row.median_ms@)
        + num_cell_text('N', r, m, row.mean_ms@) + num_cell_text('O', r, m, row.max_ms@)
        + num_cell_text('P', r, j, decimal(row.jitter as nat))
}

fn whole_cell(col: char, row: usize, style: u32, v: u32) -> (r: String)
    ensures
        r@ == num_cell_text(col, row as nat, style as nat, decimal(v as nat)),
{
    let text = crate::text::decimal_string(v as u64);
    num_cell(col, row, style, text.as_str())
}

fn figures(rows: &[Row], i: usize) -> (r: String)
    requires
        i < rows@.len(),
        rows@.len() + 2 <= usize::MAX,
    ensures
        r@ == figures_text(rows@, i as int),
{
    let row: &Row = &rows[i];
    let r: usize = i + 2;
    let e: Ends = ends_at(rows, i);
    let kind: Edge = if e.rate {
        Edge::Thick
    } else if e.backend {
        Edge::Thin
    } else if e.fmt || row.req_block == 0 {
        Edge::Dotted
    } else {
        Edge::Plain
    };
    let g: u32 = s_general(kind);
    let m: u32 = s_ms(kind);
    let mut s = if row.req_block == 0 {
        str_cell('F', r, g, "auto")
    } else {
        whole_cell('F', r, g, row.req_block)
    };
    s.append(whole_cell('G', r, g, row.act_block).as_str());
    s.append(whole_cell('H', r, g, row.min_f).as_str());
    s.append(whole_cell('I', r, g, row.median_f).as_str());
    s.append(num_cell('J', r, g, row.mean_f.as_str()).as_str());
    s.append(whole_cell('K', r, g, row.max_f).as_str());
    s.append(num_cell('L', r, m, row.min_ms.as_str()).as_str());
    s.append(num_cell('M', r, m, row.median_ms.as_str()).as_str());
    s.append(num_cell('N', r, m, row.mean_ms.as_str()).as_str());
    s.append(num_cell('O', r, m, row.max_ms.as_str()).as_str());
    s.append(whole_cell('P', r, s_jitter(kind), row.jitter).as_str());
    s
}

/// Row `i` of the data, which is row `i + 2` of the sheet.
pub open spec fn row_text(rows: Seq<Row>, notes: Seq<String>, i: int) -> Seq<char> {
    "<row r=\""@ + decimal((i + 2) as nat) + "\">"@ + config_cell_text(rows, i, 0)
        + config_cell_text(rows, i, 1) + config_cell_text(rows, i, 2) + config_cell_text(rows, i, 3)
        + config_cell_text(rows, i, 4) + figures_text(rows, i) + note_cell_text(
        notes,
        i,
        rows.len(),
    ) + "</row>"@
}

fn data_row(rows: &[Row], notes: &[String], i: usize) -> (r: String)
    requires
        i < rows@.len(),
        rows@.len() + 2 <= usize::MAX,
    ensures
        r@ == row_text(rows@, notes@, i as int),
{
    let mut s = "<row r=\"".to_owned();
    push_decimal(&mut s, (i + 2) as u64);
    s.append("\">");
    s.append(config_cell(rows, i, 0).as_str());
    s.append(config_cell(rows, i, 1).as_str());
    s.append(config_cell(rows, i, 2).as_str());
    s.append(config_cell(rows, i, 3).as_str());
    s.append(config_cell(rows, i, 4).as_str());
    s.append(figures(rows, i).as_str());
    s.append(note_cell(notes, i, rows.len()).as_str());
    s.append("</row>");
    s
}

/// The heading of column `c`.
pub open spec fn heading(c: int) -> Seq<char> {
    if c == 0 {
        "rate"@
    } else if c == 1 {
        "backend"@
    } else if c == 2 {
        "mode"@
    } else if c == 3 {
        "req_format"@
    } else if c == 4 {
        "act_format"@
    } else if c == 5 {
        "req_block"@
    } else if c == 6 {
        "act_block"@
    } else if c == 7 {
        "min_frames"@
    } else if c == 8 {
        "median_frames"@
    } else if c == 9 {
        "mean_frames"@
    } else if c == 10 {
        "max_frames"@
    } else if c == 11 {
        "min_ms"@
    } else if c == 12 {
        "median_ms"@
    } else if c == 13 {
        "mean_ms"@
    } else if c == 14 {
        "max_ms"@
    } else if c == 15 {
        "jitter_frames"@
    } else {
        "Notes"@
    }
}

fn header_name(c: usize) -> (r: &'static str)
    requires
        c < 17,
    ensures
        r@ == heading(c as int),
{
    if c == 0 {
        "rate"
    } else if c == 1 {
        "backend"
    } else if c == 2 {
        "mode"
    } else if c == 3 {
        "req_format"
    } else if c == 4 {
        "act_format"
    } else if c == 5 {
        "req_block"
    } else if c == 6 {
        "act_block"
    } else if c == 7 {
        "min_frames"
    } else if c == 8 {
        "median_frames"
    } else if c == 9 {
        "mean_frames"
    } else if c == 10 {
        "max_frames"
    } else if c == 11 {
        "min_ms"
    } else if c == 12 {
        "median_ms"
    } else if c == 13 {
        "mean_ms"
    } else if c == 14 {
        "max_ms"
    } else if c == 15 {
        "jitter_frames"
    } else {
        "Notes"
    }
}

/// The style of the heading of column `c`.
pub open spec fn heading_style(c: int) -> nat {
    if c <= 10 {
        1
    } else if c <= 14 {
        2
    } else {
        3
    }
}

pub open spec fn header_text() -> Seq<char> {
    "<row r=\"1\">"@ + joined(
        17,
        |c: int| str_cell_text(letter(c), 1, heading_style(c), heading(c)),
    ) + "</row>"@
}

fn header() -> (r: String)
    ensures
        r@ == header_text(),
{
    let ghost part = |c: int| str_cell_text(letter(c), 1, heading_style(c), heading(c));
    let mut cells = String::new();
    let mut c: usize = 0;
    while c < 17
        invariant
            c <= 17,
            part == (|c: int| str_cell_text(letter(c), 1, heading_style(c), heading(c))),
            cells@ == joined(c as nat, part),
        decreases 17 - c,
    {
        let style: u32 = if c <= 10 {
            1
        } else if c <= 14 {
            2
        } else {
            3
        };
        cells.append(str_cell(col_letter(c), 1, style, header_name(c)).as_str());
        c = c + 1;
    }
    let mut s = "<row r=\"1\">".to_owned();
    s.append(cells.as_str());
    s.append("</row>");
    s
}

/// A run of rows of column `col` that show one value, as one cell.
#[derive(Clone, Copy, PartialEq, Eq, Debug, Structural)]
pub struct Merge {
    pub col: usize,
    pub first: usize,
    pub last: usize,
}

/// The first row of the run that row `i` belongs to in column `c`.
pub open spec fn run_start(rows: Seq<Row>, i: int, c: int) -> int
    decreases i,
{
    if i <= 0 || key_changes(rows, i - 1, c) {
        i
    } else {
        run_start(rows, i - 1, c)
    }
}

/// Whether a run of at least two rows ends at row `i` of column `c`.
pub open spec fn merge_ends(rows: Seq<Row>, i: int, c: int) -> bool {
    (i + 1 == rows.len() || key_changes(rows, i, c)) && run_start(rows, i, c) < i
}

/// The merged cells of column `c` that end above row `n`.
pub open spec fn column_merges(rows: Seq<Row>, c: int, n: nat) -> Seq<Merge>
    decreases n,
{
    if n == 0 {
        Seq::empty()
    } else {
        let above = column_merges(rows, c, (n - 1) as nat);
        if merge_ends(rows, n - 1, c) {
            above.push(
                Merge {
                    col: c as usize,
                    first: run_start(rows, n - 1, c) as usize,
                    last: (n - 1) as usize,
                },
            )
        } else {
            above
        }
    }
}

/// The merged cells of the first `c` columns.
pub open spec fn merges_of(rows: Seq<Row>, c: nat) -> Seq<Merge>
    decreases c,
{
    if c == 0 {
        Seq::empty()
    } else {
        merges_of(rows, (c - 1) as nat) + column_merges(rows, c - 1, rows.len())
    }
}

proof fn lemma_run_start_range(rows: Seq<Row>, i: int, c: int)
    requires
        0 <= i,
    ensures
        0 <= run_start(rows, i, c) <= i,
    decreases i,
{
    if i > 0 && !key_changes(rows, i - 1, c) {
        lemma_run_start_range(rows, i - 1, c);
    }
}

/// Every row of a run shows the value of its first row.
pub proof fn lemma_run_is_uniform(rows: Seq<Row>, i: int, c: int, k: int)
    requires
        0 <= i,
        run_start(rows, i, c) <= k <= i,
    ensures
        merge_key(rows[k], c) == merge_key(rows[i], c),
    decreases i,
{
    if k < i {
        lemma_run_is_uniform(rows, i - 1, c, k);
    }
}

/// The merged cells of columns A to E.
pub fn merges(rows: &[Row]) -> (r: Vec<Merge>)
    requires
        rows@.len() + 2 <= usize::MAX,
    ensures
        r@ == merges_of(rows@, 5),
{
    let n: usize = rows.len();
    let mut all: Vec<Merge> = Vec::new();
    let mut c: usize = 0;
    while c < 5
        invariant
            c <= 5,
            n == rows@.len(),
            n + 2 <= usize::MAX,
            all@ == merges_of(rows@, c as nat),
        decreases 5 - c,
    {
        let ghost before = all@;
        let mut start: usize = 0;
        let mut i: usize = 0;
        while i < n
            invariant
                c < 5,
                i <= n == rows@.len(),
                n + 2 <= usize::MAX,
                i < n ==> start == run_start(rows@, i as int, c as int),
                all@ == before + column_merges(rows@, c as int, i as nat),
            decreases n - i,
        {
            proof {
                lemma_run_start_range(rows@, i as int, c as int);
            }
            let ends: bool = i + 1 == n || keys_differ(rows, i, c);
            let ghost prev = all@;
            if ends {
                if i > start {
                    all.push(Merge { col: c, first: start, last: i });
                }
                start = i + 1;
            }
            i = i + 1;
            assert(all@ =~= before + column_merges(rows@, c as int, i as nat));
        }
        c = c + 1;
    }
    all
}

pub open spec fn merge_text(m: Merge) -> Seq<char> {
    "<mergeCell ref=\""@.push(letter(m.col as int)) + decimal((m.first + 2) as nat) + ":"@.push(
        letter(m.col as int),
    ) + decimal((m.last + 2) as nat) + "\"/>"@
}

fn merge_cell(m: Merge) -> (r: String)
    requires
        m.col < 26,
        m.first + 2 <= usize::MAX,
        m.last + 2 <= usize::MAX,
    ensures
        r@ == merge_text(m),
{
    let mut s = "<mergeCell ref=\"".to_owned();
    s.push(col_letter(m.col));
    push_decimal(&mut s, (m.first + 2) as u64);
    let mut t = ":".to_owned();
    t.push(col_letter(m.col));
    s.append(t.as_str());
    push_decimal(&mut s, (m.last + 2) as u64);
    s.append("\"/>");
    s
}

/// Every merged cell lies in one of the first five columns, covers at least two
/// rows of the sheet, and covers only rows that show the same value.
pub proof fn law_merges_cover_equal_rows(rows: Seq<Row>, k: int)
    requires
        rows.len() + 2 <= usize::MAX,
        0 <= k < merges_of(rows, 5).len(),
    ensures
        merges_of(rows, 5)[k].col < 5,
        merges_of(rows, 5)[k].first < merges_of(rows, 5)[k].last < rows.len(),
        forall|i: int|
            merges_of(rows, 5)[k].first <= i <= merges_of(rows, 5)[k].last ==> merge_key(
                #[trigger] rows[i],
                merges_of(rows, 5)[k].col as int,
            ) == merge_key(
                rows[merges_of(rows, 5)[k].first as int],
                merges_of(rows, 5)[k].col as int,
            ),
{
    lemma_merges_sound(rows, 5, k);
}

spec fn merge_is_sound(rows: Seq<Row>, m: Merge, c: int) -> bool {
    &&& m.col == c
    &&& m.first < m.last < rows.len()
    &&& forall|i: int|
        m.first <= i <= m.last ==> merge_key(#[trigger] rows[i], c) == merge_key(
            rows[m.first as int],
            c,
        )
}

proof fn lemma_column_merges_sound(rows: Seq<Row>, c: int, n: nat, k: int)
    requires
        rows.len() + 2 <= usize::MAX,
        0 <= c < 5,
        n <= rows.len(),
        0 <= k < column_merges(rows, c, n).len(),
    ensures
        merge_is_sound(rows, column_merges(rows, c, n)[k], c),
    decreases n,
{
    let above = column_merges(rows, c, (n - 1) as nat);
    if k < above.len() {
        lemma_column_merges_sound(rows, c, (n - 1) as nat, k);
    } else {
        let m = column_merges(rows, c, n)[k];
        lemma_run_start_range(rows, n - 1, c);
        assert forall|i: int| m.first <= i <= m.last implies merge_key(#[trigger] rows[i], c)
            == merge_key(rows[m.first as int], c) by {
            lemma_run_is_uniform(rows, n - 1, c, i);
            lemma_run_is_uniform(rows, n - 1, c, m.first as int);
        }
    }
}

proof fn lemma_merges_sound(rows: Seq<Row>, c: nat, k: int)
    requires
        rows.len() + 2 <= usize::MAX,
        c <= 5,
        0 <= k < merges_of(rows, c).len(),
    ensures
        merges_of(rows, c)[k].col < c,
        merge_is_sound(rows, merges_of(rows, c)[k], merges_of(rows, c)[k].col as int),
    decreases c,
{
    let left = merges_of(rows, (c - 1) as nat);
    if k < left.len() {
        lemma_merges_sound(rows, (c - 1) as nat, k);
    } else {
        lemma_column_merges_sound(rows, c - 1, rows.len(), k - left.len());
    }
}

proof fn lemma_run_starts_below_change(rows: Seq<Row>, l: int, i: int, c: int)
    requires
        0 <= l < i,
        key_changes(rows, l, c),
    ensures
        l < run_start(rows, i, c),
    decreases i,
{
    if l < i - 1 && !key_changes(rows, i - 1, c) {
        lemma_run_starts_below_change(rows, l, i - 1, c);
    }
}

proof fn lemma_column_merge_ends(rows: Seq<Row>, c: int, n: nat, k: int)
    requires
        rows.len() + 2 <= usize::MAX,
        n <= rows.len(),
        0 <= k < column_merges(rows, c, n).len(),
    ensures
        column_merges(rows, c, n)[k].last < n,
        merge_ends(rows, column_merges(rows, c, n)[k].last as int, c),
    decreases n,
{
    let above = column_merges(rows, c, (n - 1) as nat);
    if k < above.len() {
        lemma_column_merge_ends(rows, c, (n - 1) as nat, k);
    }
}

proof fn lemma_column_merges_apart(rows: Seq<Row>, c: int, n: nat, j: int, k: int)
    requires
        rows.len() + 2 <= usize::MAX,
        n <= rows.len(),
        0 <= j < k < column_merges(rows, c, n).len(),
    ensures
        column_merges(rows, c, n)[j].last < column_merges(rows, c, n)[k].first,
    decreases n,
{
    let above = column_merges(rows, c, (n - 1) as nat);
    if k < above.len() {
        lemma_column_merges_apart(rows, c, (n - 1) as nat, j, k);
    } else {
        lemma_column_merge_ends(rows, c, (n - 1) as nat, j);
        lemma_run_start_range(rows, n - 1, c);
        lemma_run_starts_below_change(rows, above[j].last as int, n - 1, c);
    }
}

proof fn lemma_merges_apart(rows: Seq<Row>, c: nat, j: int, k: int)
    requires
        rows.len() + 2 <= usize::MAX,
        c <= 5,
        0 <= j < k < merges_of(rows, c).len(),
    ensures
        merges_of(rows, c)[j].col != merges_of(rows, c)[k].col || merges_of(rows, c)[j].last
            < merges_of(rows, c)[k].first,
    decreases c,
{
    let left = merges_of(rows, (c - 1) as nat);
    if k < left.len() {
        lemma_merges_apart(rows, (c - 1) as nat, j, k);
    } else if j < left.len() {
        lemma_merges_sound(rows, (c - 1) as nat, j);
        lemma_column_merges_sound(rows, c - 1, rows.len(), k - left.len());
    } else {
        lemma_column_merges_apart(rows, c - 1, rows.len(), j - left.len(), k - left.len());
    }
}

/// Two merged cells never overlap: they lie in different columns, or one ends
/// above the other.
pub proof fn law_merges_do_not_overlap(rows: Seq<Row>, j: int, k: int)
    requires
        rows.len() + 2 <= usize::MAX,
        0 <= j < k < merges_of(rows, 5).len(),
    ensures
        merges_of(rows, 5)[j].col != merges_of(rows, 5)[k].col || merges_of(rows, 5)[j].last
            < merges_of(rows, 5)[k].first,
{
    lemma_merges_apart(rows, 5, j, k);
}

pub open spec fn merges_text(all: Seq<Merge>) -> Seq<char> {
    "<mergeCells count=\""@ + decimal(all.len()) + "\">"@ + joined(
        all.len(),
        |k: int| merge_text(all[k]),
    ) + "</mergeCells>"@
}

fn merges_part(rows: &[Row]) -> (r: String)
    requires
        rows@.len() + 2 <= usize::MAX,
    ensures
        r@ == merges_text(merges_of(rows@, 5)),
{
    let all: Vec<Merge> = merges(rows);
    let ghost part = |k: int| merge_text(all@[k]);
    let mut cells = String::new();
    let mut k: usize = 0;
    while k < all.len()
        invariant
            k <= all@.len(),
            rows@.len() + 2 <= usize::MAX,
            all@ == merges_of(rows@, 5),
            part == (|k: int| merge_text(all@[k])),
            cells@ == joined(k as nat, part),
        decreases all@.len() - k,
    {
        proof {
            law_merges_cover_equal_rows(rows@, k as int);
        }
        cells.append(merge_cell(all[k]).as_str());
        k = k + 1;
    }
    let mut s = "<mergeCells count=\"".to_owned();
    push_decimal(&mut s, all.len() as u64);
    s.append("\">");
    s.append(cells.as_str());
    s.append("</mergeCells>");
    s
}

/// The opening of a conditional format on the columns named by `range`, down to
/// row `last`.
pub open spec fn rule_head(range: Seq<char>, last: nat) -> Seq<char> {
    "<conditionalFormatting sqref=\""@ + range + decimal(last) + "\"><cfRule "@
}

fn rule_start(range: &str, last: usize) -> (r: String)
    ensures
        r@ == rule_head(range@, last as nat),
{
    let mut s = "<conditionalFormatting sqref=\"".to_owned();
    s.append(range);
    push_decimal(&mut s, last as u64);
    s.append("\"><cfRule ");
    s
}

/// Marks the cells that hold the text `val`.
pub open spec fn equal_rule(
    range: Seq<char>,
    last: nat,
    dxf: nat,
    priority: nat,
    val: Seq<char>,
) -> Seq<char> {
    rule_head(range, last) + "type=\"cellIs\" dxfId=\""@ + decimal(dxf) + "\" priority=\""@
        + decimal(priority) + "\" operator=\"equal\"><formula>\""@ + val
        + "\"</formula></cfRule></conditionalFormatting>"@
}

fn equal_rule_text(range: &str, last: usize, dxf: u32, priority: u32, val: &str) -> (r: String)
    ensures
        r@ == equal_rule(range@, last as nat, dxf as nat, priority as nat, val@),
{
    let mut s = rule_start(range, last);
    s.append("type=\"cellIs\" dxfId=\"");
    push_decimal(&mut s, dxf as u64);
    s.append("\" priority=\"");
    push_decimal(&mut s, priority as u64);
    s.append("\" operator=\"equal\"><formula>\"");
    s.append(val);
    s.append("\"</formula></cfRule></conditionalFormatting>");
    s
}

/// Colours the cells from the least to the greatest.
pub open spec fn scale_rule(range: Seq<char>, last: nat, priority: nat) -> Seq<char> {
    rule_head(range, last) + "type=\"colorScale\" priority=\""@ + decimal(priority)
        + "\"><colorScale><cfvo type=\"min\"/><cfvo type=\"percentile\" val=\"50\"/><cfvo type=\"max\"/><color rgb=\"FFD9EAD3\"/><color rgb=\"FFFFF2CC\"/><color rgb=\"FFF4CCCC\"/></colorScale></cfRule></conditionalFormatting>"@
}

fn scale_rule_text(range: &str, last: usize, priority: u32) -> (r: String)
    ensures
        r@ == scale_rule(range@, last as nat, priority as nat),
{
    let mut s = rule_start(range, last);
    s.append("type=\"colorScale\" priority=\"");
    push_decimal(&mut s, priority as u64);
    s.append("\"><colorScale><cfvo type=\"min\"/><cfvo type=\"percentile\" val=\"50\"/><cfvo type=\"max\"/><color rgb=\"FFD9EAD3\"/><color rgb=\"FFFFF2CC\"/><color rgb=\"FFF4CCCC\"/></colorScale></cfRule></conditionalFormatting>");
    s
}

/// Marks the cells that compare with zero as `operator` says.
pub open spec fn zero_rule(
    range: Seq<char>,
    last: nat,
    dxf: nat,
    priority: nat,
    operator: Seq<char>,
) -> Seq<char> {
    rule_head(range, last) + "type=\"cellIs\" dxfId=\""@ + decimal(dxf) + "\" priority=\""@
        + decimal(priority) + "\" operator=\""@ + operator
        + "\"><formula>0</formula></cfRule></conditionalFormatting>"@
}

fn zero_rule_text(range: &str, last: usize, dxf: u32, priority: u32, operator: &str) -> (r: String)
    ensures
        r@ == zero_rule(range@, last as nat, dxf as nat, priority as nat, operator@),
{
    let mut s = rule_start(range, last);
    s.append("type=\"cellIs\" dxfId=\"");
    push_decimal(&mut s, dxf as u64);
    s.append("\" priority=\"");
    push_decimal(&mut s, priority as u64);
    s.append("\" operator=\"");
    s.append(operator);
    s.append("\"><formula>0</formula></cfRule></conditionalFormatting>");
    s
}

/// The conditional formats of a sheet whose last row is `last`, in the order of
/// their priorities.
pub open spec fn rules_text(last: nat) -> Seq<char> {
    equal_rule("B1:B"@, last, 0, 1, "WASAPI"@)
        + equal_rule("B1:B"@, last, 1, 2, "WDM/KS"@)
        + equal_rule("B1:B"@, last, 2, 3, "ASIO"@)
        + equal_rule("C1:C"@, last, 3, 4, "-"@)
        + equal_rule("C1:C"@, last, 4, 5, "shared"@)
        + equal_rule("C1:C"@, last, 2, 6, "exclusive"@)
        + scale_rule("A2:A"@, last, 7)
        + equal_rule("D1:E"@, last, 5, 8, "auto"@)
        + equal_rule("D1:E"@, last, 0, 9, "i16"@)
        + equal_rule("D1:E"@, last, 1, 10, "i24"@)
        + equal_rule("D1:E"@, last, 2, 11, "i32"@)
        + equal_rule("F1:F"@, last, 5, 12, "auto"@)
        + scale_rule("F1:G"@, last, 13)
        + equal_rule("D1:E"@, last, 6, 14, "i32/24"@)
        + equal_rule("D1:E"@, last, 5, 15, "f32"@)
        + scale_rule("H2:K"@, last, 16)
        + scale_rule("L2:O"@, last, 17)
        + zero_rule("P2:P"@, last, 2, 18, "equal"@)
        + zero_rule("P2:P"@, last, 0, 19, "greaterThan"@)
}

fn rules_part(last: usize) -> (r: String)
    ensures
        r@ == rules_text(last as nat),
{
    let mut s = equal_rule_text("B1:B", last, 0, 1, "WASAPI");
    s.append(equal_rule_text("B1:B", last, 1, 2, "WDM/KS").as_str());
    s.append(equal_rule_text("B1:B", last, 2, 3, "ASIO").as_str());
    s.append(equal_rule_text("C1:C", last, 3, 4, "-").as_str());
    s.append(equal_rule_text("C1:C", last, 4, 5, "shared").as_str());
    s.append(equal_rule_text("C1:C", last, 2, 6, "exclusive").as_str());
    s.append(scale_rule_text("A2:A", last, 7).as_str());
    s.append(equal_rule_text("D1:E", last, 5, 8, "auto").as_str());
    s.append(equal_rule_text("D1:E", last, 0, 9, "i16").as_str());
    s.append(equal_rule_text("D1:E", last, 1, 10, "i24").as_str());
    s.append(equal_rule_text("D1:E", last, 2, 11, "i32").as_str());
    s.append(equal_rule_text("F1:F", last, 5, 12, "auto").as_str());
    s.append(scale_rule_text("F1:G", last, 13).as_str());
    s.append(equal_rule_text("D1:E", last, 6, 14, "i32/24").as_str());
    s.append(equal_rule_text("D1:E", last, 5, 15, "f32").as_str());
    s.append(scale_rule_text("H2:K", last, 16).as_str());
    s.append(scale_rule_text("L2:O", last, 17).as_str());
    s.append(zero_rule_text("P2:P", last, 2, 18, "equal").as_str());
    s.append(zero_rule_text("P2:P", last, 0, 19, "greaterThan").as_str());
    s
}

/// What stands before the rows of the sheet.
pub open spec fn sheet_head() -> Seq<char> {
    "<?xml version=\"1.0\" encoding=\"UTF-8\" standalone=\"yes\"?>"@
        + "<worksheet xmlns=\"http://schemas.openxmlformats.org/spreadsheetml/2006/main\" xmlns:r=\"http://schemas.openxmlformats.org/officeDocument/2006/relationships\">"@
        + "<sheetPr><outlinePr summaryBelow=\"0\" summaryRight=\"0\"/></sheetPr>"@
        + "<sheetViews><sheetView workbookViewId=\"0\"><pane ySplit=\"1\" topLeftCell=\"A2\" activePane=\"bottomLeft\" state=\"frozen\"/><selection pane=\"bottomLeft\" activeCell=\"A2\" sqref=\"A2\"/></sheetView></sheetViews>"@
        + "<sheetFormatPr customHeight=\"1\" defaultColWidth=\"12.63\" defaultRowHeight=\"15.75\"/>"@
        + "<cols><col customWidth=\"1\" min=\"17\" max=\"17\" width=\"54.63\"/></cols>"@
        + "<sheetData>"@
}

/// The worksheet: a header, a row for each run with its note beside it, merged
/// cells where neighbouring runs share their configuration, and conditional
/// formats.
pub open spec fn sheet_text(rows: Seq<Row>, notes: Seq<String>) -> Seq<char> {
    sheet_head() + header_text() + joined(rows.len(), |i: int| row_text(rows, notes, i))
        + "</sheetData>"@ + merges_text(merges_of(rows, 5)) + rules_text(rows.len() + 1)
        + "</worksheet>"@
}

/// Writes the worksheet as XML.
pub fn build_sheet(rows: &[Row], notes: &[String]) -> (r: String)
    requires
        rows@.len() + 2 <= usize::MAX,
    ensures
        r@ == sheet_text(rows@, notes@),
{
    let n: usize = rows.len();
    let ghost part = |i: int| row_text(rows@, notes@, i);
    let mut data = String::new();
    let mut i: usize = 0;
    while i < n
        invariant
            i <= n == rows@.len(),
            n + 2 <= usize::MAX,
            part == (|i: int| row_text(rows@, notes@, i)),
            data@ == joined(i as nat, part),
        decreases n - i,
    {
        data.append(data_row(rows, notes, i).as_str());
        i = i + 1;
    }
    let mut s = "<?xml version=\"1.0\" encoding=\"UTF-8\" standalone=\"yes\"?>".to_owned();
    s.append(
        "<worksheet xmlns=\"http://schemas.openxmlformats.org/spreadsheetml/2006/main\" xmlns:r=\"http://schemas.openxmlformats.org/officeDocument/2006/relationships\">",
    );
    s.append("<sheetPr><outlinePr summaryBelow=\"0\" summaryRight=\"0\"/></sheetPr>");
    s.append(
        "<sheetViews><sheetView workbookViewId=\"0\"><pane ySplit=\"1\" topLeftCell=\"A2\" activePane=\"bottomLeft\" state=\"frozen\"/><selection pane=\"bottomLeft\" activeCell=\"A2\" sqref=\"A2\"/></sheetView></sheetViews>",
    );
    s.append("<sheetFormatPr customHeight=\"1\" defaultColWidth=\"12.63\" defaultRowHeight=\"15.75\"/>");
    s.append("<cols><col customWidth=\"1\" min=\"17\" max=\"17\" width=\"54.63\"/></cols>");
    s.append("<sheetData>");
    s.append(header().as_str());
    s.append(data.as_str());
    s.append("</sheetData>");
    s.append(merges_part(rows).as_str());
    s.append(rules_part(n + 1).as_str());
    s.append("</worksheet>");
    s
}

/// The media types of the parts of the package.
pub const CONTENT_TYPES: &'static str = "<?xml version=\"1.0\" encoding=\"UTF-8\" standalone=\"yes\"?><Types xmlns=\"http://schemas.openxmlformats.org/package/2006/content-types\"><Default ContentType=\"application/xml\" Extension=\"xml\"/><Default ContentType=\"application/vnd.openxmlformats-package.relationships+xml\" Extension=\"rels\"/><Override ContentType=\"application/vnd.openxmlformats-officedocument.spreadsheetml.worksheet+xml\" PartName=\"/xl/worksheets/sheet1.xml\"/><Override ContentType=\"application/vnd.openxmlformats-officedocument.spreadsheetml.styles+xml\" PartName=\"/xl/styles.xml\"/><Override ContentType=\"application/vnd.openxmlformats-officedocument.theme+xml\" PartName=\"/xl/theme/theme1.xml\"/><Override ContentType=\"application/vnd.openxmlformats-officedocument.spreadsheetml.sheet.main+xml\" PartName=\"/xl/workbook.xml\"/></Types>";

/// Where the package's workbook is.
pub const RELS: &'static str = "<?xml version=\"1.0\" encoding=\"UTF-8\" standalone=\"yes\"?><Relationships xmlns=\"http://schemas.openxmlformats.org/package/2006/relationships\"><Relationship Id=\"rId1\" Type=\"http://schemas.openxmlformats.org/officeDocument/2006/relationships/officeDocument\" Target=\"xl/workbook.xml\"/></Relationships>";

/// The workbook: one sheet.
pub const WORKBOOK: &'static str = "<?xml version=\"1.0\" encoding=\"UTF-8\" standalone=\"yes\"?><workbook xmlns=\"http://schemas.openxmlformats.org/spreadsheetml/2006/main\" xmlns:r=\"http://schemas.openxmlformats.org/officeDocument/2006/relationships\"><sheets><sheet state=\"visible\" name=\"Latency Sweep\" sheetId=\"1\" r:id=\"rId3\"/></sheets></workbook>";

/// Where the workbook's theme, styles and sheet are.
pub const WB_RELS: &'static str = "<?xml version=\"1.0\" encoding=\"UTF-8\" standalone=\"yes\"?><Relationships xmlns=\"http://schemas.openxmlformats.org/package/2006/relationships\"><Relationship Id=\"rId1\" Type=\"http://schemas.openxmlformats.org/officeDocument/2006/relationships/theme\" Target=\"theme/theme1.xml\"/><Relationship Id=\"rId2\" Type=\"http://schemas.openxmlformats.org/officeDocument/2006/relationships/styles\" Target=\"styles.xml\"/><Relationship Id=\"rId3\" Type=\"http://schemas.openxmlformats.org/officeDocument/2006/relationships/worksheet\" Target=\"worksheets/sheet1.xml\"/></Relationships>";

/// The parts of the package: a name and its content each.
pub open spec fn package_parts(
    rows: Seq<Row>,
    notes: Seq<String>,
    styles: Seq<char>,
    theme: Seq<char>,
) -> Seq<(Seq<u8>, Seq<u8>)> {
    Seq::empty().push((utf8("[Content_Types].xml"@), utf8(CONTENT_TYPES@))).push(
        (utf8("_rels/.rels"@), utf8(RELS@)),
    ).push((utf8("xl/workbook.xml"@), utf8(WORKBOOK@))).push(
        (utf8("xl/_rels/workbook.xml.rels"@), utf8(WB_RELS@)),
    ).push((utf8("xl/styles.xml"@), utf8(styles))).push(
        (utf8("xl/theme/theme1.xml"@), utf8(theme)),
    ).push((utf8("xl/worksheets/sheet1.xml"@), utf8(sheet_text(rows, notes))))
}

fn push_part<'a>(parts: &mut Vec<Entry<'a>>, name: &'a str, content: &str)
    ensures
        stored(final(parts)@) == stored(old(parts)@).push((utf8(name@), utf8(content@))),
{
    parts.push((name, vstd::slice::slice_to_vec(bytes_of(content))));
    assert(stored(parts@) =~= stored(old(parts)@).push((utf8(name@), utf8(content@))));
}

/// The bytes of the report: the worksheet and the fixed parts, in one archive.
/// `styles` and `theme` are the workbook's style sheet and theme.
pub fn package(rows: &[Row], notes: &[String], styles: &str, theme: &str) -> (r: Vec<u8>)
    requires
        rows@.len() + 2 <= usize::MAX,
    ensures
        r@ == archive(package_parts(rows@, notes@, styles@, theme@)),
{
    let sheet = build_sheet(rows, notes);
    let mut parts: Vec<Entry> = Vec::new();
    assert(stored(parts@) =~= Seq::<(Seq<u8>, Seq<u8>)>::empty());
    push_part(&mut parts, "[Content_Types].xml", CONTENT_TYPES);
    push_part(&mut parts, "_rels/.rels", RELS);
    push_part(&mut parts, "xl/workbook.xml", WORKBOOK);
    push_part(&mut parts, "xl/_rels/workbook.xml.rels", WB_RELS);
    push_part(&mut parts, "xl/styles.xml", styles);
    push_part(&mut parts, "xl/theme/theme1.xml", theme);
    push_part(&mut parts, "xl/worksheets/sheet1.xml", sheet.as_str());
    zip_store(parts.as_slice())
}

/// Whether row `i` of the sheet has a cell with the number `value` in the column
/// that is headed `name`.
pub open spec fn has_number_under(
    rows: Seq<Row>,
    notes: Seq<String>,
    i: int,
    name: Seq<char>,
    value: Seq<char>,
) -> bool {
    exists|c: int, style: nat|
        0 <= c < 17 && heading(c) == name && has_substring(
            row_text(rows, notes, i),
            #[trigger] num_cell_text(letter(c), (i + 2) as nat, style, value),
        )
}

/// Whether row `i` of the sheet has a cell with the text `value` in the column that
/// is headed `name`.
pub open spec fn has_text_under(
    rows: Seq<Row>,
    notes: Seq<String>,
    i: int,
    name: Seq<char>,
    value: Seq<char>,
) -> bool {
    exists|c: int, style: nat|
        0 <= c < 17 && heading(c) == name && has_substring(
            row_text(rows, notes, i),
            #[trigger] str_cell_text(letter(c), (i + 2) as nat, style, value),
        )
}

#[verifier::rlimit(40)]
proof fn lemma_figures_hold_their_cells(rows: Seq<Row>, i: int)
    ensures
        has_substring(
            figures_text(rows, i),
            req_block_text(rows[i], (i + 2) as nat, general_style(row_kind(rows, i)) as nat),
        ),
        has_substring(figures_text(rows, i), num_cell_text('G', (i + 2) as nat, general_style(row_kind(rows, i)) as nat, decimal(rows[i].act_block as nat))),
        has_substring(figures_text(rows, i), num_cell_text('H', (i + 2) as nat, general_style(row_kind(rows, i)) as nat, decimal(rows[i].min_f as nat))),
        has_substring(figures_text(rows, i), num_cell_text('I', (i + 2) as nat, general_style(row_kind(rows, i)) as nat, decimal(rows[i].median_f as nat))),
        has_substring(figures_text(rows, i), num_cell_text('J', (i + 2) as nat, general_style(row_kind(rows, i)) as nat, rows[i].mean_f@)),
        has_substring(figures_text(rows, i), num_cell_text('K', (i + 2) as nat, general_style(row_kind(rows, i)) as nat, decimal(rows[i].max_f as nat))),
        has_substring(figures_text(rows, i), num_cell_text('L', (i + 2) as nat, ms_style(row_kind(rows, i)) as nat, rows[i].min_ms@)),
        has_substring(figures_text(rows, i), num_cell_text('M', (i + 2) as nat, ms_style(row_kind(rows, i)) as nat, rows[i].median_ms@)),
        has_substring(figures_text(rows, i), num_cell_text('N', (i + 2) as nat, ms_style(row_kind(rows, i)) as nat, rows[i].mean_ms@)),
        has_substring(figures_text(rows, i), num_cell_text('O', (i + 2) as nat, ms_style(row_kind(rows, i)) as nat, rows[i].max_ms@)),
        has_substring(figures_text(rows, i), num_cell_text('P', (i + 2) as nat, jitter_style(row_kind(rows, i)) as nat, decimal(rows[i].jitter as nat))),
{
    let row = rows[i];
    let r = (i + 2) as nat;
    let kind = row_kind(rows, i);
    let g = general_style(kind) as nat;
    let m = ms_style(kind) as nat;
    let j = jitter_style(kind) as nat;
    let f0 = req_block_text(row, r, g);
    let c1 = num_cell_text('G', r, g, decimal(row.act_block as nat));
    let f1 = f0 + c1;
    lemma_part_at_end(f0, c1);
    let c2 = num_cell_text('H', r, g, decimal(row.min_f as nat));
    let f2 = f1 + c2;
    lemma_part_at_end(f1, c2);
    let c3 = num_cell_text('I', r, g, decimal(row.median_f as nat));
    let f3 = f2 + c3;
    lemma_part_at_end(f2, c3);
    let c4 = num_cell_text('J', r, g, row.mean_f@);
    let f4 = f3 + c4;
    lemma_part_at_end(f3, c4);
    let c5 = num_cell_text('K', r, g, decimal(row.max_f as nat));
    let f5 = f4 + c5;
    lemma_part_at_end(f4, c5);
    let c6 = num_cell_text('L', r, m, row.min_ms@);
    let f6 = f5 + c6;
    lemma_part_at_end(f5, c6);
    let c7 = num_cell_text('M', r, m, row.median_ms@);
    let f7 = f6 + c7;
    lemma_part_at_end(f6, c7);
    let c8 = num_cell_text('N', r, m, row.mean_ms@);
    let f8 = f7 + c8;
    lemma_part_at_end(f7, c8);
    let c9 = num_cell_text('O', r, m, row.max_ms@);
    let f9 = f8 + c9;
    lemma_part_at_end(f8, c9);
    let c10 = num_cell_text('P', r, j, decimal(row.jitter as nat));
    let f10 = f9 + c10;
    lemma_part_at_end(f9, c10);
    lemma_part_stays(f1, c2, c1);
    lemma_part_stays(f2, c3, c1);
    lemma_part_stays(f3, c4, c1);
    lemma_part_stays(f4, c5, c1);
    lemma_part_stays(f5, c6, c1);
    lemma_part_stays(f6, c7, c1);
    lemma_part_stays(f7, c8, c1);
    lemma_part_stays(f8, c9, c1);
    lemma_part_stays(f9, c10, c1);
    lemma_part_stays(f2, c3, c2);
    lemma_part_stays(f3, c4, c2);
    lemma_part_stays(f4, c5, c2);
    lemma_part_stays(f5, c6, c2);
    lemma_part_stays(f6, c7, c2);
    lemma_part_stays(f7, c8, c2);
    lemma_part_stays(f8, c9, c2);
    lemma_part_stays(f9, c10, c2);
    lemma_part_stays(f3, c4, c3);
    lemma_part_stays(f4, c5, c3);
    lemma_part_stays(f5, c6, c3);
    lemma_part_stays(f6, c7, c3);
    lemma_part_stays(f7, c8, c3);
    lemma_part_stays(f8, c9, c3);
    lemma_part_stays(f9, c10, c3);
    lemma_part_stays(f4, c5, c4);
    lemma_part_stays(f5, c6, c4);
    lemma_part_stays(f6, c7, c4);
    lemma_part_stays(f7, c8, c4);
    lemma_part_stays(f8, c9, c4);
    lemma_part_stays(f9, c10, c4);
    lemma_part_stays(f5, c6, c5);
    lemma_part_stays(f6, c7, c5);
    lemma_part_stays(f7, c8, c5);
    lemma_part_stays(f8, c9, c5);
    lemma_part_stays(f9, c10, c5);
    lemma_part_stays(f6, c7, c6);
    lemma_part_stays(f7, c8, c6);
    lemma_part_stays(f8, c9, c6);
    lemma_part_stays(f9, c10, c6);
    lemma_part_stays(f7, c8, c7);
    lemma_part_stays(f8, c9, c7);
    lemma_part_stays(f9, c10, c7);
    lemma_part_stays(f8, c9, c8);
    lemma_part_stays(f9, c10, c8);
    lemma_part_stays(f9, c10, c9);
    lemma_part_at_end(Seq::empty(), f0);
    assert(Seq::<char>::empty() + f0 =~= f0);
    lemma_part_stays(f0, c1, f0);
    lemma_part_stays(f1, c2, f0);
    lemma_part_stays(f2, c3, f0);
    lemma_part_stays(f3, c4, f0);
    lemma_part_stays(f4, c5, f0);
    lemma_part_stays(f5, c6, f0);
    lemma_part_stays(f6, c7, f0);
    lemma_part_stays(f7, c8, f0);
    lemma_part_stays(f8, c9, f0);
    lemma_part_stays(f9, c10, f0);
    assert(figures_text(rows, i) == f10);
}

/// The parts of a row, each behind the ones before it.
proof fn lemma_row_holds_its_parts(rows: Seq<Row>, notes: Seq<String>, i: int)
    ensures
        forall|c: int|
            0 <= c < 5 ==> has_substring(
                row_text(rows, notes, i),
                #[trigger] config_cell_text(rows, i, c),
            ),
        has_substring(row_text(rows, notes, i), figures_text(rows, i)),
        has_substring(row_text(rows, notes, i), note_cell_text(notes, i, rows.len())),
{
    let s0 = "<row r=\""@ + decimal((i + 2) as nat) + "\">"@;
    let a = config_cell_text(rows, i, 0);
    let b = config_cell_text(rows, i, 1);
    let c = config_cell_text(rows, i, 2);
    let d = config_cell_text(rows, i, 3);
    let e = config_cell_text(rows, i, 4);
    let f = figures_text(rows, i);
    let n = note_cell_text(notes, i, rows.len());
    let z = "</row>"@;
    let s1 = s0 + a;
    let s2 = s1 + b;
    let s3 = s2 + c;
    let s4 = s3 + d;
    let s5 = s4 + e;
    let s6 = s5 + f;
    let s7 = s6 + n;
    lemma_part_at_end(s0, a);
    lemma_part_stays(s1, b, a);
    lemma_part_stays(s2, c, a);
    lemma_part_stays(s3, d, a);
    lemma_part_stays(s4, e, a);
    lemma_part_stays(s5, f, a);
    lemma_part_stays(s6, n, a);
    lemma_part_stays(s7, z, a);
    lemma_part_at_end(s1, b);
    lemma_part_stays(s2, c, b);
    lemma_part_stays(s3, d, b);
    lemma_part_stays(s4, e, b);
    lemma_part_stays(s5, f, b);
    lemma_part_stays(s6, n, b);
    lemma_part_stays(s7, z, b);
    lemma_part_at_end(s2, c);
    lemma_part_stays(s3, d, c);
    lemma_part_stays(s4, e, c);
    lemma_part_stays(s5, f, c);
    lemma_part_stays(s6, n, c);
    lemma_part_stays(s7, z, c);
    lemma_part_at_end(s3, d);
    lemma_part_stays(s4, e, d);
    lemma_part_stays(s5, f, d);
    lemma_part_stays(s6, n, d);
    lemma_part_stays(s7, z, d);
    lemma_part_at_end(s4, e);
    lemma_part_stays(s5, f, e);
    lemma_part_stays(s6, n, e);
    lemma_part_stays(s7, z, e);
    lemma_part_at_end(s5, f);
    lemma_part_stays(s6, n, f);
    lemma_part_stays(s7, z, f);
    lemma_part_at_end(s6, n);
    lemma_part_stays(s7, z, n);
    assert(row_text(rows, notes, i) == s7 + z);
}

/// The figures of a run stand under their headings: the row of the run has each
/// figure in the column that the header row names so, the requested block as a
/// number or as `auto`.
pub proof fn law_figures_stand_under_their_headings(rows: Seq<Row>, notes: Seq<String>, i: int)
    requires
        0 <= i < rows.len(),
    ensures
        ({
            let row = rows[i];
            &&& has_number_under(rows, notes, i, "act_block"@, decimal(row.act_block as nat))
            &&& has_number_under(rows, notes, i, "min_frames"@, decimal(row.min_f as nat))
            &&& has_number_under(rows, notes, i, "median_frames"@, decimal(row.median_f as nat))
            &&& has_number_under(rows, notes, i, "mean_frames"@, row.mean_f@)
            &&& has_number_under(rows, notes, i, "max_frames"@, decimal(row.max_f as nat))
            &&& has_number_under(rows, notes, i, "min_ms"@, row.min_ms@)
            &&& has_number_under(rows, notes, i, "median_ms"@, row.median_ms@)
            &&& has_number_under(rows, notes, i, "mean_ms"@, row.mean_ms@)
            &&& has_number_under(rows, notes, i, "max_ms"@, row.max_ms@)
            &&& has_number_under(rows, notes, i, "jitter_frames"@, decimal(row.jitter as nat))
            &&& row.req_block != 0 ==> has_number_under(
                rows,
                notes,
                i,
                "req_block"@,
                decimal(row.req_block as nat),
            )
            &&& row.req_block == 0 ==> has_text_under(rows, notes, i, "req_block"@, "auto"@)
        }),
{
    lemma_figures_hold_their_cells(rows, i);
    lemma_row_holds_its_parts(rows, notes, i);
    let row = rows[i];
    let r = (i + 2) as nat;
    let line = row_text(rows, notes, i);
    let g = general_style(row_kind(rows, i)) as nat;
    let m = ms_style(row_kind(rows, i)) as nat;
    let j = jitter_style(row_kind(rows, i)) as nat;
    lemma_part_of_part(line, figures_text(rows, i), num_cell_text('G', r, g, decimal(row.act_block as nat)));
    assert(heading(6) == "act_block"@ && letter(6) == 'G');
    lemma_part_of_part(line, figures_text(rows, i), num_cell_text('H', r, g, decimal(row.min_f as nat)));
    assert(heading(7) == "min_frames"@ && letter(7) == 'H');
    lemma_part_of_part(line, figures_text(rows, i), num_cell_text('I', r, g, decimal(row.median_f as nat)));
    assert(heading(8) == "median_frames"@ && letter(8) == 'I');
    lemma_part_of_part(line, figures_text(rows, i), num_cell_text('J', r, g, row.mean_f@));
    assert(heading(9) == "mean_frames"@ && letter(9) == 'J');
    lemma_part_of_part(line, figures_text(rows, i), num_cell_text('K', r, g, decimal(row.max_f as nat)));
    assert(heading(10) == "max_frames"@ && letter(10) == 'K');
    lemma_part_of_part(line, figures_text(rows, i), num_cell_text('L', r, m, row.min_ms@));
    assert(heading(11) == "min_ms"@ && letter(11) == 'L');
    lemma_part_of_part(line, figures_text(rows, i), num_cell_text('M', r, m, row.median_ms@));
    assert(heading(12) == "median_ms"@ && letter(12) == 'M');
    lemma_part_of_part(line, figures_text(rows, i), num_cell_text('N', r, m, row.mean_ms@));
    assert(heading(13) == "mean_ms"@ && letter(13) == 'N');
    lemma_part_of_part(line, figures_text(rows, i), num_cell_text('O', r, m, row.max_ms@));
    assert(heading(14) == "max_ms"@ && letter(14) == 'O');
    lemma_part_of_part(line, figures_text(rows, i), num_cell_text('P', r, j, decimal(row.jitter as nat)));
    assert(heading(15) == "jitter_frames"@ && letter(15) == 'P');
    lemma_part_of_part(line, figures_text(rows, i), req_block_text(row, r, g));
    assert(heading(5) == "req_block"@ && letter(5) == 'F');
    if row.req_block == 0 {
        assert(has_substring(line, str_cell_text(letter(5), r, g, "auto"@)));
    } else {
        assert(has_substring(line, num_cell_text(letter(5), r, g, decimal(row.req_block as nat))));
    }
}

/// The configuration of a run stands under its headings as well: where a group of
/// rows that share it begins, the row shows the rate, the backend, the mode and the
/// two formats in the columns that the header row names so.
pub proof fn law_configuration_stands_under_its_headings(
    rows: Seq<Row>,
    notes: Seq<String>,
    i: int,
)
    requires
        0 <= i < rows.len(),
    ensures
        is_run_start(rows, i, 0) ==> has_number_under(
            rows,
            notes,
            i,
            "rate"@,
            decimal(rows[i].rate as nat),
        ),
        is_run_start(rows, i, 1) ==> has_text_under(rows, notes, i, "backend"@, rows[i].backend@),
        is_run_start(rows, i, 2) ==> has_text_under(rows, notes, i, "mode"@, rows[i].mode@),
        is_run_start(rows, i, 3) ==> has_text_under(
            rows,
            notes,
            i,
            "req_format"@,
            rows[i].req_format@,
        ),
        is_run_start(rows, i, 4) ==> has_text_under(
            rows,
            notes,
            i,
            "act_format"@,
            rows[i].act_format@,
        ),
{
    lemma_row_holds_its_parts(rows, notes, i);
    let r = (i + 2) as nat;
    let line = row_text(rows, notes, i);
    let s = |c: int|
        if group_ends(rows, i, c) {
            general_style(group_kind(rows, i)) as nat
        } else {
            4
        };
    assert(has_substring(line, config_cell_text(rows, i, 0)));
    assert(has_substring(line, config_cell_text(rows, i, 1)));
    assert(has_substring(line, config_cell_text(rows, i, 2)));
    assert(has_substring(line, config_cell_text(rows, i, 3)));
    assert(has_substring(line, config_cell_text(rows, i, 4)));
    assert(letter(0) == 'A' && letter(1) == 'B' && letter(2) == 'C' && letter(3) == 'D' && letter(4)
        == 'E');
    if is_run_start(rows, i, 0) {
        assert(has_substring(line, num_cell_text(letter(0), r, s(0), decimal(rows[i].rate as nat))));
    }
    if is_run_start(rows, i, 1) {
        assert(has_substring(line, str_cell_text(letter(1), r, s(1), rows[i].backend@)));
    }
    if is_run_start(rows, i, 2) {
        assert(has_substring(line, str_cell_text(letter(2), r, s(2), rows[i].mode@)));
    }
    if is_run_start(rows, i, 3) {
        assert(has_substring(line, str_cell_text(letter(3), r, s(3), rows[i].req_format@)));
    }
    if is_run_start(rows, i, 4) {
        assert(has_substring(line, str_cell_text(letter(4), r, s(4), rows[i].act_format@)));
    }
}

/// The header row has every heading in its own column, and every data row has its
/// note in the column that is headed `Notes`.
pub proof fn law_header_names_every_column(notes: Seq<String>, rows: Seq<Row>, c: int, i: int)
    requires
        0 <= c < 17,
        0 <= i < rows.len(),
    ensures
        has_substring(header_text(), str_cell_text(letter(c), 1, heading_style(c), heading(c))),
        i < notes.len() && notes[i]@.len() > 0 ==> has_text_under(
            rows,
            notes,
            i,
            "Notes"@,
            notes[i]@,
        ),
{
    let part = |c: int| str_cell_text(letter(c), 1, heading_style(c), heading(c));
    lemma_joined_holds(17, part, c);
    let cells = joined(17, part);
    lemma_part_at_end("<row r=\"1\">"@, cells);
    lemma_part_stays("<row r=\"1\">"@ + cells, "</row>"@, cells);
    lemma_part_of_part(header_text(), cells, part(c));
    lemma_row_holds_its_parts(rows, notes, i);
    assert(heading(16) == "Notes"@ && letter(16) == 'Q');
    if i < notes.len() && notes[i]@.len() > 0 {
        assert(has_substring(
            row_text(rows, notes, i),
            str_cell_text(letter(16), (i + 2) as nat, note_style(i, rows.len()), notes[i]@),
        ));
    }
}

/// Every column has a letter of its own, from A on.
pub proof fn law_columns_have_their_own_letters(a: int, b: int)
    requires
        0 <= a < b < 26,
    ensures
        letter(0) == 'A',
        letter(a) as nat + (b - a) == letter(b) as nat,
{
}

/// The sheet holds the header, a row for every run, and every merged cell.
pub proof fn law_sheet_holds_every_row(rows: Seq<Row>, notes: Seq<String>, i: int, k: int)
    ensures
        has_substring(sheet_text(rows, notes), header_text()),
        0 <= i < rows.len() ==> has_substring(
            sheet_text(rows, notes),
            row_text(rows, notes, i),
        ),
        0 <= k < merges_of(rows, 5).len() ==> has_substring(
            sheet_text(rows, notes),
            merge_text(merges_of(rows, 5)[k]),
        ),
{
    let part = |i: int| row_text(rows, notes, i);
    let all = merges_of(rows, 5);
    let cell = |k: int| merge_text(all[k]);
    let data = joined(rows.len(), part);
    let a = sheet_head() + header_text();
    let b = a + data;
    let c = b + "</sheetData>"@;
    let m = merges_text(all);
    let d = c + m;
    let r = rules_text(rows.len() + 1);
    let z = "</worksheet>"@;
    assert(sheet_text(rows, notes) == d + r + z);
    lemma_part_at_end(sheet_head(), header_text());
    lemma_part_stays(a, data, header_text());
    lemma_part_stays(b, "</sheetData>"@, header_text());
    lemma_part_stays(c, m, header_text());
    lemma_part_stays(d, r, header_text());
    lemma_part_stays(d + r, z, header_text());
    lemma_part_at_end(a, data);
    lemma_part_stays(b, "</sheetData>"@, data);
    lemma_part_stays(c, m, data);
    lemma_part_stays(d, r, data);
    lemma_part_stays(d + r, z, data);
    if 0 <= i < rows.len() {
        lemma_joined_holds(rows.len(), part, i);
        lemma_part_of_part(sheet_text(rows, notes), data, part(i));
    }
    lemma_part_at_end(c, m);
    lemma_part_stays(d, r, m);
    lemma_part_stays(d + r, z, m);
    if 0 <= k < all.len() {
        let inner = joined(all.len(), cell);
        let open = "<mergeCells count=\""@ + decimal(all.len()) + "\">"@;
        lemma_joined_holds(all.len(), cell, k);
        lemma_part_at_end(open, inner);
        lemma_part_stays(open + inner, "</mergeCells>"@, inner);
        lemma_part_of_part(m, inner, cell(k));
        lemma_part_of_part(sheet_text(rows, notes), m, cell(k));
    }
}

/// Reads escaped text: each of the three entities as the character that it stands
/// for.
pub open spec fn unescaped(s: Seq<char>) -> Seq<char>
    decreases s.len(),
{
    if s.len() == 0 {
        Seq::empty()
    } else if s.len() >= 5 && s.take(5) == "&amp;"@ {
        seq!['&'] + unescaped(s.skip(5))
    } else if s.len() >= 4 && s.take(4) == "&lt;"@ {
        seq!['<'] + unescaped(s.skip(4))
    } else if s.len() >= 4 && s.take(4) == "&gt;"@ {
        seq!['>'] + unescaped(s.skip(4))
    } else {
        seq![s[0]] + unescaped(s.skip(1))
    }
}

proof fn lemma_joined_from_front(n: nat, part: spec_fn(int) -> Seq<char>)
    requires
        n > 0,
    ensures
        joined(n, part) == part(0) + joined((n - 1) as nat, |i: int| part(i + 1)),
    decreases n,
{
    let rest = |i: int| part(i + 1);
    if n == 1 {
        assert(joined(0, part) =~= Seq::<char>::empty());
        assert(joined(1, part) =~= part(0) + joined(0, rest));
    } else {
        lemma_joined_from_front((n - 1) as nat, part);
        lemma_regroup(part(0), joined((n - 2) as nat, rest), rest(n - 2));
        assert(joined((n - 1) as nat, rest) == joined((n - 2) as nat, rest) + rest(n - 2));
        assert(rest(n - 2) == part(n - 1));
    }
}

/// Nothing is lost by escaping: reading escaped text gives back the text.
pub proof fn law_escaped_text_reads_back(s: Seq<char>)
    ensures
        unescaped(escaped(s)) == s,
    decreases s.len(),
{
    reveal_strlit("&amp;");
    reveal_strlit("&lt;");
    reveal_strlit("&gt;");
    if s.len() > 0 {
        let t = s.skip(1);
        let part = |i: int| escaped_char(s[i]);
        lemma_joined_from_front(s.len(), part);
        lemma_joined_agrees(t.len(), |i: int| part(i + 1), |i: int| escaped_char(t[i]));
        law_escaped_text_reads_back(t);
        let e = escaped(s);
        let first = escaped_char(s[0]);
        assert(e == first + escaped(t));
        assert(e.skip(first.len() as int) =~= escaped(t));
        assert(e.take(first.len() as int) =~= first);
        assert(e[0] == first[0]);
        assert("&amp;"@[1] == 'a' && "&lt;"@[1] == 'l' && "&gt;"@[1] == 'g');
        assert("&amp;"@[0] == '&' && "&lt;"@[0] == '&' && "&gt;"@[0] == '&');
        if s[0] == '&' {
            assert(first == "&amp;"@);
        } else if s[0] == '<' {
            assert(first == "&lt;"@);
            assert(e[1] == 'l');
            assert(e.len() >= 5 ==> e.take(5)[1] == 'l');
        } else if s[0] == '>' {
            assert(first == "&gt;"@);
            assert(e[1] == 'g');
            assert(e.len() >= 5 ==> e.take(5)[1] == 'g');
            assert(e.take(4)[1] == 'g');
        } else {
            assert(e[0] == s[0]);
            assert(e.len() >= 5 ==> e.take(5)[0] == s[0]);
            assert(e.len() >= 4 ==> e.take(4)[0] == s[0]);
        }
        assert(s =~= seq![s[0]] + t);
    } else {
        assert(escaped(s) =~= Seq::<char>::empty());
        assert(s =~= Seq::<char>::empty());
    }
}

/// A group of rows ends at the last row, and wherever the next row differs in what
/// the group shares: the rate; or the backend as well; or the mode as well; or the
/// requested format as well. So a group never ends within a smaller one.
pub proof fn law_groups_end_where_rows_differ(rows: Seq<Row>, i: int)
    requires
        0 <= i < rows.len(),
    ensures
        i + 1 == rows.len() ==> rate_end(rows, i),
        rate_end(rows, i) ==> backend_end(rows, i),
        backend_end(rows, i) ==> mode_end(rows, i),
        mode_end(rows, i) ==> fmt_end(rows, i),
        i + 1 < rows.len() ==> {
            let (a, b) = (rows[i], rows[i + 1]);
            &&& !rate_end(rows, i) <==> a.rate == b.rate
            &&& !backend_end(rows, i) <==> a.rate == b.rate && a.backend@ == b.backend@
            &&& !mode_end(rows, i) <==> a.rate == b.rate && a.backend@ == b.backend@ && a.mode@
                == b.mode@
            &&& !fmt_end(rows, i) <==> a.rate == b.rate && a.backend@ == b.backend@ && a.mode@
                == b.mode@ && a.req_format@ == b.req_format@
        },
{
}

/// The stronger the end of a group, the stronger the line below: no other line than
/// the thick one ends a rate, none but the thin one ends a backend within a rate, and
/// a row in the middle of everything has no line at all. Each line has a style of its
/// own in every kind of cell.
pub proof fn law_lines_follow_the_groups(rows: Seq<Row>, i: int, e: Edge, f: Edge)
    requires
        0 <= i < rows.len(),
    ensures
        rate_end(rows, i) <==> row_kind(rows, i) == Edge::Thick,
        backend_end(rows, i) && !rate_end(rows, i) <==> row_kind(rows, i) == Edge::Thin,
        row_kind(rows, i) == Edge::Plain <==> !fmt_end(rows, i) && rows[i].req_block != 0,
        rate_end(rows, i) <==> group_kind(rows, i) == Edge::Thick,
        backend_end(rows, i) && !rate_end(rows, i) <==> group_kind(rows, i) == Edge::Thin,
        e != f ==> general_style(e) != general_style(f) && ms_style(e) != ms_style(f)
            && jitter_style(e) != jitter_style(f),
{
}

proof fn lemma_merge_key_fields(row: Row, c: int)
    requires
        0 <= c < 5,
        is_free_of(row.backend@, '|'),
        is_free_of(row.mode@, '|'),
        is_free_of(row.req_format@, '|'),
        is_free_of(row.act_format@, '|'),
    ensures
        fields(merge_key(row, c), '|') == seq![
            decimal(row.rate as nat),
            row.backend@,
            row.mode@,
            row.req_format@,
            row.act_format@,
        ].take(c + 1),
{
    reveal_strlit("|");
    assert("|"@ =~= seq!['|']);
    let all = seq![
        decimal(row.rate as nat),
        row.backend@,
        row.mode@,
        row.req_format@,
        row.act_format@,
    ];
    let s0 = decimal(row.rate as nat);
    lemma_decimal_is_free_of(row.rate as nat, '|');
    lemma_one_field(s0, '|');
    let s1 = s0 + "|"@ + row.backend@;
    lemma_next_field(s0, "|"@, row.backend@, '|');
    let s2 = s1 + "|"@ + row.mode@;
    lemma_next_field(s1, "|"@, row.mode@, '|');
    let s3 = s2 + "|"@ + row.req_format@;
    lemma_next_field(s2, "|"@, row.req_format@, '|');
    let s4 = s3 + "|"@ + row.act_format@;
    lemma_next_field(s3, "|"@, row.act_format@, '|');
    assert(fields(s0, '|') =~= all.take(1));
    assert(fields(s1, '|') =~= all.take(2));
    assert(fields(s2, '|') =~= all.take(3));
    assert(fields(s3, '|') =~= all.take(4));
    assert(fields(s4, '|') =~= all.take(5));
}

/// Whether the texts of a row can stand in a key.
pub open spec fn is_keyable(row: Row) -> bool {
    &&& is_free_of(row.backend@, '|')
    &&& is_free_of(row.mode@, '|')
    &&& is_free_of(row.req_format@, '|')
    &&& is_free_of(row.act_format@, '|')
}

/// Rows share a merged cell of a column only if they agree in that column and in all
/// columns to the left of it: the rate, the backend, the mode, the requested and the
/// actual format.
pub proof fn law_merged_rows_agree_to_the_left(a: Row, b: Row, c: int)
    requires
        0 <= c < 5,
        is_keyable(a),
        is_keyable(b),
    ensures
        merge_key(a, c) == merge_key(b, c) <==> {
            &&& a.rate == b.rate
            &&& c >= 1 ==> a.backend@ == b.backend@
            &&& c >= 2 ==> a.mode@ == b.mode@
            &&& c >= 3 ==> a.req_format@ == b.req_format@
            &&& c >= 4 ==> a.act_format@ == b.act_format@
        },
{
    lemma_merge_key_fields(a, c);
    lemma_merge_key_fields(b, c);
    if merge_key(a, c) == merge_key(b, c) {
        let f = fields(merge_key(a, c), '|');
        assert(f[0] == decimal(a.rate as nat) && f[0] == decimal(b.rate as nat));
        law_numerals_differ(a.rate as nat, b.rate as nat);
        if c >= 1 {
            assert(f[1] == a.backend@ && f[1] == b.backend@);
        }
        if c >= 2 {
            assert(f[2] == a.mode@ && f[2] == b.mode@);
        }
        if c >= 3 {
            assert(f[3] == a.req_format@ && f[3] == b.req_format@);
        }
        if c >= 4 {
            assert(f[4] == a.act_format@ && f[4] == b.act_format@);
        }
    }
}

proof fn lemma_column_merges_grow(rows: Seq<Row>, c: int, m: nat, n: nat, k: int)
    requires
        m <= n,
        0 <= k < column_merges(rows, c, m).len(),
    ensures
        k < column_merges(rows, c, n).len(),
        column_merges(rows, c, n)[k] == column_merges(rows, c, m)[k],
    decreases n,
{
    if m < n {
        lemma_column_merges_grow(rows, c, m, (n - 1) as nat, k);
    }
}

proof fn lemma_merges_hold_column(rows: Seq<Row>, c: nat, n: nat, k: int)
    requires
        c < n,
        0 <= k < column_merges(rows, c as int, rows.len()).len(),
    ensures
        merges_of(rows, n).contains(column_merges(rows, c as int, rows.len())[k]),
    decreases n,
{
    let left = merges_of(rows, (n - 1) as nat);
    let m = column_merges(rows, c as int, rows.len())[k];
    if c == n - 1 {
        assert(merges_of(rows, n)[left.len() + k] == m);
    } else {
        lemma_merges_hold_column(rows, c, (n - 1) as nat, k);
        let j = choose|j: int| 0 <= j < left.len() && left[j] == m;
        assert(merges_of(rows, n)[j] == m);
    }
}

proof fn lemma_run_is_merged(rows: Seq<Row>, c: nat, i: int, e: int)
    requires
        rows.len() + 2 <= usize::MAX,
        c < 5,
        0 <= i < e < rows.len(),
        run_start(rows, e, c as int) <= i,
    ensures
        exists|m: Merge| #[trigger]
            merges_of(rows, 5).contains(m) && m.col == c && m.first <= i && m.last >= e,
    decreases rows.len() - e,
{
    let col = c as int;
    if e + 1 == rows.len() || key_changes(rows, e, col) {
        let n = (e + 1) as nat;
        let here = column_merges(rows, col, n);
        let k = here.len() - 1;
        lemma_run_start_range(rows, e, col);
        assert(merge_ends(rows, e, col));
        let m = here[k];
        lemma_column_merges_grow(rows, col, n, rows.len(), k);
        lemma_merges_hold_column(rows, c, 5, k);
        assert(merges_of(rows, 5).contains(m));
    } else {
        lemma_run_is_merged(rows, c, i, e + 1);
        let m = choose|m: Merge| #[trigger]
            merges_of(rows, 5).contains(m) && m.col == c && m.first <= i && m.last >= e + 1;
        assert(merges_of(rows, 5).contains(m));
    }
}

/// Neighbouring rows that agree in a column, and in all columns to the left of it,
/// share a merged cell there: no value is shown twice in a row.
pub proof fn law_equal_neighbours_are_merged(rows: Seq<Row>, c: nat, i: int)
    requires
        rows.len() + 2 <= usize::MAX,
        c < 5,
        0 <= i,
        i + 1 < rows.len(),
        merge_key(rows[i], c as int) == merge_key(rows[i + 1], c as int),
    ensures
        exists|m: Merge| #[trigger]
            merges_of(rows, 5).contains(m) && m.col == c && m.first <= i && m.last >= i + 1,
{
    lemma_run_start_range(rows, i, c as int);
    assert(run_start(rows, i + 1, c as int) == run_start(rows, i, c as int));
    lemma_run_is_merged(rows, c, i, i + 1);
}

/// A merged cell is named by its first and its last cell on the sheet, where row `i`
/// of the data is row `i + 2`, below the header.
pub proof fn law_merged_cells_are_named_by_their_corners(m: Merge)
    ensures
        has_substring(
            merge_text(m),
            seq![letter(m.col as int)] + decimal((m.first + 2) as nat) + (seq![
                ':',
                letter(m.col as int),
            ] + decimal((m.last + 2) as nat)),
        ),
{
    reveal_strlit(":");
    let l = letter(m.col as int);
    let a = "<mergeCell ref=\""@;
    let x = decimal((m.first + 2) as nat);
    let y = decimal((m.last + 2) as nat);
    let said = seq![l] + x + (seq![':', l] + y);
    assert(":"@.push(l) =~= seq![':', l]);
    assert(a.push(l) + x + seq![':', l] + y =~= a + said);
    lemma_part_at_end(a, said);
    lemma_part_stays(a + said, "\"/>"@, said);
}

/// The package holds the worksheet, the style sheet and the theme, each under the
/// name by which the other parts refer to it.
pub proof fn law_package_holds_its_parts(
    rows: Seq<Row>,
    notes: Seq<String>,
    styles: Seq<char>,
    theme: Seq<char>,
)
    ensures
        ({
            let parts = package_parts(rows, notes, styles, theme);
            &&& parts.len() == 7
            &&& parts.contains((utf8("xl/styles.xml"@), utf8(styles)))
            &&& parts.contains((utf8("xl/theme/theme1.xml"@), utf8(theme)))
            &&& parts.contains((utf8("xl/worksheets/sheet1.xml"@), utf8(sheet_text(rows, notes))))
            &&& parts.contains((utf8("xl/workbook.xml"@), utf8(WORKBOOK@)))
            &&& parts.contains((utf8("xl/_rels/workbook.xml.rels"@), utf8(WB_RELS@)))
            &&& parts.contains((utf8("_rels/.rels"@), utf8(RELS@)))
            &&& parts.contains((utf8("[Content_Types].xml"@), utf8(CONTENT_TYPES@)))
        }),
{
    let parts = package_parts(rows, notes, styles, theme);
    assert(parts[0] == (utf8("[Content_Types].xml"@), utf8(CONTENT_TYPES@)));
    assert(parts[1] == (utf8("_rels/.rels"@), utf8(RELS@)));
    assert(parts[2] == (utf8("xl/workbook.xml"@), utf8(WORKBOOK@)));
    assert(parts[3] == (utf8("xl/_rels/workbook.xml.rels"@), utf8(WB_RELS@)));
    assert(parts[4] == (utf8("xl/styles.xml"@), utf8(styles)));
    assert(parts[5] == (utf8("xl/theme/theme1.xml"@), utf8(theme)));
    assert(parts[6] == (utf8("xl/worksheets/sheet1.xml"@), utf8(sheet_text(rows, notes))));
}

/// The rules of a sheet, each a part of the whole.
proof fn lemma_rules_hold_each_rule(last: nat)
    ensures
        has_substring(rules_text(last), equal_rule("B1:B"@, last, 0, 1, "WASAPI"@)),
        has_substring(rules_text(last), equal_rule("B1:B"@, last, 1, 2, "WDM/KS"@)),
        has_substring(rules_text(last), equal_rule("B1:B"@, last, 2, 3, "ASIO"@)),
        has_substring(rules_text(last), equal_rule("C1:C"@, last, 3, 4, "-"@)),
        has_substring(rules_text(last), equal_rule("C1:C"@, last, 4, 5, "shared"@)),
        has_substring(rules_text(last), equal_rule("C1:C"@, last, 2, 6, "exclusive"@)),
        has_substring(rules_text(last), scale_rule("A2:A"@, last, 7)),
        has_substring(rules_text(last), equal_rule("D1:E"@, last, 5, 8, "auto"@)),
        has_substring(rules_text(last), equal_rule("D1:E"@, last, 0, 9, "i16"@)),
        has_substring(rules_text(last), equal_rule("D1:E"@, last, 1, 10, "i24"@)),
        has_substring(rules_text(last), equal_rule("D1:E"@, last, 2, 11, "i32"@)),
        has_substring(rules_text(last), equal_rule("F1:F"@, last, 5, 12, "auto"@)),
        has_substring(rules_text(last), scale_rule("F1:G"@, last, 13)),
        has_substring(rules_text(last), equal_rule("D1:E"@, last, 6, 14, "i32/24"@)),
        has_substring(rules_text(last), equal_rule("D1:E"@, last, 5, 15, "f32"@)),
        has_substring(rules_text(last), scale_rule("H2:K"@, last, 16)),
        has_substring(rules_text(last), scale_rule("L2:O"@, last, 17)),
        has_substring(rules_text(last), zero_rule("P2:P"@, last, 2, 18, "equal"@)),
        has_substring(rules_text(last), zero_rule("P2:P"@, last, 0, 19, "greaterThan"@)),
{
    let s1 = equal_rule("B1:B"@, last, 0, 1, "WASAPI"@);
    let p2 = equal_rule("B1:B"@, last, 1, 2, "WDM/KS"@);
    let s2 = s1 + p2;
    let p3 = equal_rule("B1:B"@, last, 2, 3, "ASIO"@);
    let s3 = s2 + p3;
    let p4 = equal_rule("C1:C"@, last, 3, 4, "-"@);
    let s4 = s3 + p4;
    let p5 = equal_rule("C1:C"@, last, 4, 5, "shared"@);
    let s5 = s4 + p5;
    let p6 = equal_rule("C1:C"@, last, 2, 6, "exclusive"@);
    let s6 = s5 + p6;
    let p7 = scale_rule("A2:A"@, last, 7);
    let s7 = s6 + p7;
    let p8 = equal_rule("D1:E"@, last, 5, 8, "auto"@);
    let s8 = s7 + p8;
    let p9 = equal_rule("D1:E"@, last, 0, 9, "i16"@);
    let s9 = s8 + p9;
    let p10 = equal_rule("D1:E"@, last, 1, 10, "i24"@);
    let s10 = s9 + p10;
    let p11 = equal_rule("D1:E"@, last, 2, 11, "i32"@);
    let s11 = s10 + p11;
    let p12 = equal_rule("F1:F"@, last, 5, 12, "auto"@);
    let s12 = s11 + p12;
    let p13 = scale_rule("F1:G"@, last, 13);
    let s13 = s12 + p13;
    let p14 = equal_rule("D1:E"@, last, 6, 14, "i32/24"@);
    let s14 = s13 + p14;
    let p15 = equal_rule("D1:E"@, last, 5, 15, "f32"@);
    let s15 = s14 + p15;
    let p16 = scale_rule("H2:K"@, last, 16);
    let s16 = s15 + p16;
    let p17 = scale_rule("L2:O"@, last, 17);
    let s17 = s16 + p17;
    let p18 = zero_rule("P2:P"@, last, 2, 18, "equal"@);
    let s18 = s17 + p18;
    let p19 = zero_rule("P2:P"@, last, 0, 19, "greaterThan"@);
    let s19 = s18 + p19;
    assert(rules_text(last) == s19);
    law_substrings_nest(s19, Seq::empty(), Seq::empty());
    lemma_part_at_end(s18, p19);
    lemma_part_of_part(s19, s19, p19);
    law_substrings_nest(s18, Seq::empty(), Seq::empty());
    lemma_part_stays(s18, p19, s18);
    lemma_part_of_part(s19, s19, s18);
    lemma_part_at_end(s17, p18);
    lemma_part_of_part(s19, s18, p18);
    law_substrings_nest(s17, Seq::empty(), Seq::empty());
    lemma_part_stays(s17, p18, s17);
    lemma_part_of_part(s19, s18, s17);
    lemma_part_at_end(s16, p17);
    lemma_part_of_part(s19, s17, p17);
    law_substrings_nest(s16, Seq::empty(), Seq::empty());
    lemma_part_stays(s16, p17, s16);
    lemma_part_of_part(s19, s17, s16);
    lemma_part_at_end(s15, p16);
    lemma_part_of_part(s19, s16, p16);
    law_substrings_nest(s15, Seq::empty(), Seq::empty());
    lemma_part_stays(s15, p16, s15);
    lemma_part_of_part(s19, s16, s15);
    lemma_part_at_end(s14, p15);
    lemma_part_of_part(s19, s15, p15);
    law_substrings_nest(s14, Seq::empty(), Seq::empty());
    lemma_part_stays(s14, p15, s14);
    lemma_part_of_part(s19, s15, s14);
    lemma_part_at_end(s13, p14);
    lemma_part_of_part(s19, s14, p14);
    law_substrings_nest(s13, Seq::empty(), Seq::empty());
    lemma_part_stays(s13, p14, s13);
    lemma_part_of_part(s19, s14, s13);
    lemma_part_at_end(s12, p13);
    lemma_part_of_part(s19, s13, p13);
    law_substrings_nest(s12, Seq::empty(), Seq::empty());
    lemma_part_stays(s12, p13, s12);
    lemma_part_of_part(s19, s13, s12);
    lemma_part_at_end(s11, p12);
    lemma_part_of_part(s19, s12, p12);
    law_substrings_nest(s11, Seq::empty(), Seq::empty());
    lemma_part_stays(s11, p12, s11);
    lemma_part_of_part(s19, s12, s11);
    lemma_part_at_end(s10, p11);
    lemma_part_of_part(s19, s11, p11);
    law_substrings_nest(s10, Seq::empty(), Seq::empty());
    lemma_part_stays(s10, p11, s10);
    lemma_part_of_part(s19, s11, s10);
    lemma_part_at_end(s9, p10);
    lemma_part_of_part(s19, s10, p10);
    law_substrings_nest(s9, Seq::empty(), Seq::empty());
    lemma_part_stays(s9, p10, s9);
    lemma_part_of_part(s19, s10, s9);
    lemma_part_at_end(s8, p9);
    lemma_part_of_part(s19, s9, p9);
    law_substrings_nest(s8, Seq::empty(), Seq::empty());
    lemma_part_stays(s8, p9, s8);
    lemma_part_of_part(s19, s9, s8);
    lemma_part_at_end(s7, p8);
    lemma_part_of_part(s19, s8, p8);
    law_substrings_nest(s7, Seq::empty(), Seq::empty());
    lemma_part_stays(s7, p8, s7);
    lemma_part_of_part(s19, s8, s7);
    lemma_part_at_end(s6, p7);
    lemma_part_of_part(s19, s7, p7);
    law_substrings_nest(s6, Seq::empty(), Seq::empty());
    lemma_part_stays(s6, p7, s6);
    lemma_part_of_part(s19, s7, s6);
    lemma_part_at_end(s5, p6);
    lemma_part_of_part(s19, s6, p6);
    law_substrings_nest(s5, Seq::empty(), Seq::empty());
    lemma_part_stays(s5, p6, s5);
    lemma_part_of_part(s19, s6, s5);
    lemma_part_at_end(s4, p5);
    lemma_part_of_part(s19, s5, p5);
    law_substrings_nest(s4, Seq::empty(), Seq::empty());
    lemma_part_stays(s4, p5, s4);
    lemma_part_of_part(s19, s5, s4);
    lemma_part_at_end(s3, p4);
    lemma_part_of_part(s19, s4, p4);
    law_substrings_nest(s3, Seq::empty(), Seq::empty());
    lemma_part_stays(s3, p4, s3);
    lemma_part_of_part(s19, s4, s3);
    lemma_part_at_end(s2, p3);
    lemma_part_of_part(s19, s3, p3);
    law_substrings_nest(s2, Seq::empty(), Seq::empty());
    lemma_part_stays(s2, p3, s2);
    lemma_part_of_part(s19, s3, s2);
    lemma_part_at_end(s1, p2);
    lemma_part_of_part(s19, s2, p2);
    law_substrings_nest(s1, Seq::empty(), Seq::empty());
    lemma_part_stays(s1, p2, s1);
    lemma_part_of_part(s19, s2, s1);
}

/// Whether the cells of `range` that hold the text `value` are marked.
pub open spec fn is_marked(last: nat, range: Seq<char>, value: Seq<char>) -> bool {
    exists|dxf: nat, priority: nat|
        has_substring(rules_text(last), #[trigger] equal_rule(range, last, dxf, priority, value))
}

/// Whether the cells of `range` are coloured from the least to the greatest.
pub open spec fn is_scaled(last: nat, range: Seq<char>) -> bool {
    exists|priority: nat|
        has_substring(rules_text(last), #[trigger] scale_rule(range, last, priority))
}

/// Every backend is marked in the column of the backends, every sample format in the
/// columns of the formats, and both share modes in the column of the modes. The rates,
/// the blocks and the figures in frames and in milliseconds are coloured by their size,
/// and a jitter of none is told from any other. All of it goes down to the last row.
pub proof fn law_every_value_is_marked(last: nat, b: Backend, f: SampleFormat)
    ensures
        is_marked(last, "B1:B"@, backend_text(b)),
        is_marked(last, "D1:E"@, f.spec_name()),
        is_marked(last, "D1:E"@, "auto"@),
        is_marked(last, "C1:C"@, "shared"@),
        is_marked(last, "C1:C"@, "exclusive"@),
        is_marked(last, "C1:C"@, "-"@),
        is_marked(last, "F1:F"@, "auto"@),
        is_scaled(last, "A2:A"@),
        is_scaled(last, "F1:G"@),
        is_scaled(last, "H2:K"@),
        is_scaled(last, "L2:O"@),
        exists|d: nat, p: nat, e: nat, q: nat|
            d != e && has_substring(
                rules_text(last),
                #[trigger] zero_rule("P2:P"@, last, d, p, "equal"@),
            ) && has_substring(
                rules_text(last),
                #[trigger] zero_rule("P2:P"@, last, e, q, "greaterThan"@),
            ),
{
    lemma_rules_hold_each_rule(last);
}

/// The lines and the columns have the styles that the style sheet has for them: plain,
/// dotted, thin and thick in this order, for text, for milliseconds and for the jitter,
/// three for cells that a merged cell covers, and three for the header.
pub proof fn law_styles_are_those_of_the_style_sheet(e: Edge, c: int, i: int, n: nat)
    requires
        0 <= c < 17,
        0 <= i < n,
    ensures
        (general_style(e), ms_style(e), jitter_style(e)) == match e {
            Edge::Plain => (4u32, 10u32, 9u32),
            Edge::Dotted => (5u32, 6u32, 7u32),
            Edge::Thin => (14u32, 15u32, 11u32),
            Edge::Thick => (17u32, 18u32, 19u32),
        },
        e is Dotted <==> covered_style(e) == 12,
        e is Thin <==> covered_style(e) == 13,
        covered_style(e) == 12 || covered_style(e) == 13 || covered_style(e) == 16,
        heading_style(c) == 1 <==> c <= 10,
        heading_style(c) == 3 <==> c >= 15,
        heading_style(c) <= 3,
        note_style(i, n) == jitter_style(Edge::Thick) <==> i + 1 == n,
        i + 1 < n ==> (note_style(i, n) == jitter_style(Edge::Thin) <==> i == 5),
        i + 1 < n ==> (note_style(i, n) == 8 <==> i == 0),
        i + 1 < n && i != 0 && i != 5 ==> note_style(i, n) == jitter_style(Edge::Plain),
{
}

/// The cells of a group that a merged cell covers are left out, but for the last one of
/// the group, which carries the line below it.
pub proof fn law_covered_cells_are_empty(rows: Seq<Row>, i: int, c: int)
    requires
        0 <= i < rows.len(),
        0 <= c < 5,
        !is_run_start(rows, i, c),
    ensures
        group_ends(rows, i, c) ==> config_cell_text(rows, i, c) == empty_cell_text(
            letter(c),
            (i + 2) as nat,
            covered_style(group_kind(rows, i)) as nat,
        ),
        !group_ends(rows, i, c) ==> config_cell_text(rows, i, c).len() == 0,
        i > 0,
{
}

/// The group that a column shows ends where the column's own values end: the rates at
/// the end of a rate, the backends at that of a backend, the modes at that of a mode,
/// and both formats at that of a requested format.
pub proof fn law_columns_end_with_their_groups(rows: Seq<Row>, i: int)
    ensures
        group_ends(rows, i, 0) == rate_end(rows, i),
        group_ends(rows, i, 1) == backend_end(rows, i),
        group_ends(rows, i, 2) == mode_end(rows, i),
        group_ends(rows, i, 3) == fmt_end(rows, i),
        group_ends(rows, i, 4) == fmt_end(rows, i),
{
}

} // verus!

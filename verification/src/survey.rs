//! Survey rows of a road section: a named `区間N,台形計算` block of a CSV
//! text (or the whole text), read into station name, distance and widths.

use vstd::prelude::*;

use crate::fields::{csv_fields, fields_of};
use crate::number::{ascii_lower_seq, is_float_literal, lower_eq, num_or, zero_text, NumText};
use crate::sections::{
    escape_regex, opt_string, regex_escape, regex_first_capture, regex_first_group, ParseError,
    ParseErrorView,
};
use crate::text::{
    chars_of, contains, contains_exec, lines_of, split_lines, str_lowercase, string_of,
    to_lowercase, trim, trim_chars, views,
};

verus! {

broadcast use vstd::string::group_string_axioms;

/// One survey row before any transformation; the numbers are kept as the
/// literals the file holds.
#[derive(Debug)]
pub struct RawRow {
    pub name: String,
    pub x: NumText,
    pub wl: NumText,
    pub wr: NumText,
}

pub struct RawRowView {
    pub name: Seq<char>,
    pub x: Seq<char>,
    pub wl: Seq<char>,
    pub wr: Seq<char>,
}

impl View for RawRow {
    type V = RawRowView;

    open spec fn view(&self) -> RawRowView {
        RawRowView { name: self.name@, x: self.x@, wl: self.wl@, wr: self.wr@ }
    }
}

pub open spec fn raw_views(v: Seq<RawRow>) -> Seq<RawRowView> {
    Seq::new(v.len(), |i: int| v[i]@)
}

/// Whether a line holds more than whitespace.
pub open spec fn nonblank(l: Seq<char>) -> bool {
    trim(l).len() > 0
}

/// The non-blank lines of a block.
pub open spec fn block_lines(block: Seq<char>) -> Seq<Seq<char>> {
    split_lines(block).filter(|l: Seq<char>| nonblank(l))
}

/// A field that marks the first line as a header: it mentions 測点, 延長 or
/// 幅員, or is `name` or `x` ignoring ASCII case.
pub open spec fn is_header_field(p: Seq<char>) -> bool {
    ||| contains(p, "測点"@)
    ||| contains(p, "延長"@)
    ||| contains(p, "幅員"@)
    ||| ascii_lower_seq(p) == "name"@
    ||| ascii_lower_seq(p) == "x"@
}

pub open spec fn has_header(first: Seq<Seq<char>>) -> bool {
    exists|i: int| 0 <= i < first.len() && is_header_field(#[trigger] first[i])
}

/// Column positions of name, distance and widths; `wr` is `None` when the
/// header names no `wr` column.
pub struct Columns {
    pub name: int,
    pub x: int,
    pub wl: int,
    pub wr: Option<int>,
}

/// The column assignment after reading header field `p` (lower-cased) at
/// position `i`.
pub open spec fn assign_column(c: Columns, i: int, p: Seq<char>) -> Columns {
    if contains(p, "測点"@) || p == "name"@ {
        Columns { name: i, ..c }
    } else if contains(p, "単延長"@) || contains(p, "延長"@) || p == "x"@ {
        Columns { x: i, ..c }
    } else if contains(p, "平均幅員"@) {
        c
    } else if contains(p, "幅員"@) || p == "wl"@ {
        Columns { wl: i, ..c }
    } else if p == "wr"@ {
        Columns { wr: Some(i), ..c }
    } else {
        c
    }
}

/// The columns named by the first `n` header fields.
pub open spec fn header_columns(first: Seq<Seq<char>>, n: int) -> Columns
    decreases n,
{
    if n <= 0 || n > first.len() {
        Columns { name: 0, x: 1, wl: 2, wr: None }
    } else {
        assign_column(header_columns(first, n - 1), n - 1, str_lowercase(first[n - 1]))
    }
}

/// The columns of a block whose first line has fields `first`: named by
/// the header, else name, x, wl, wr in the first four columns.
pub open spec fn columns_of(first: Seq<Seq<char>>) -> Columns {
    if has_header(first) {
        header_columns(first, first.len() as int)
    } else {
        Columns { name: 0, x: 1, wl: 2, wr: Some(3) }
    }
}

/// Field `c` of `p`, or the empty text when there is none.
pub open spec fn field_at(p: Seq<Seq<char>>, c: int) -> Seq<char> {
    if 0 <= c < p.len() {
        p[c]
    } else {
        Seq::empty()
    }
}

/// The row of one line: none for a `#` comment or a line whose distance is
/// not a number; a width that is missing or not a number is `0`.
pub open spec fn survey_row(line: Seq<char>, cols: Columns) -> Option<RawRowView> {
    if line.len() > 0 && line[0] == '#' {
        None
    } else {
        let p = csv_fields(line);
        let x = field_at(p, cols.x);
        if !is_float_literal(x) {
            None
        } else {
            Some(
                RawRowView {
                    name: field_at(p, cols.name),
                    x,
                    wl: num_or(field_at(p, cols.wl), zero_text()),
                    wr: match cols.wr {
                        Some(c) => num_or(field_at(p, c), zero_text()),
                        None => zero_text(),
                    },
                },
            )
        }
    }
}

/// The rows of lines `k..`.
pub open spec fn survey_rows(lines: Seq<Seq<char>>, k: int, cols: Columns) -> Seq<RawRowView>
    decreases lines.len() - k,
{
    if k < 0 || k >= lines.len() {
        Seq::empty()
    } else {
        let here = match survey_row(lines[k], cols) {
            Some(r) => seq![r],
            None => Seq::empty(),
        };
        here + survey_rows(lines, k + 1, cols)
    }
}

/// What a CSV block reads to: the rows after the header line (if the first
/// line is one), or `NoData` when there is none.
pub open spec fn spec_parse_block(block: Seq<char>) -> Result<Seq<RawRowView>, ParseErrorView> {
    let lines = block_lines(block);
    if lines.len() == 0 {
        Err(ParseErrorView::NoData)
    } else {
        let first = csv_fields(lines[0]);
        let start = if has_header(first) {
            1int
        } else {
            0int
        };
        let rows = survey_rows(lines, start, columns_of(first));
        if rows.len() == 0 {
            Err(ParseErrorView::NoData)
        } else {
            Ok(rows)
        }
    }
}

pub open spec fn rows_result(r: Result<Vec<RawRow>, ParseError>) -> Result<
    Seq<RawRowView>,
    ParseErrorView,
> {
    match r {
        Ok(v) => Ok(raw_views(v@)),
        Err(e) => Err(e@),
    }
}

/// The non-blank lines of `v`.
fn nonblank_lines(v: &[char]) -> (r: Vec<Vec<char>>)
    ensures
        views(r@) == block_lines(v@),
{
    let all = lines_of(v);
    let ghost ls = views(all@);
    let mut out: Vec<Vec<char>> = Vec::new();
    let mut i: usize = 0;
    while i < all.len()
        invariant
            i <= all@.len(),
            ls == views(all@),
            ls == split_lines(v@),
            views(out@) == ls.take(i as int).filter(|l: Seq<char>| nonblank(l)),
        decreases all@.len() - i,
    {
        proof {
            reveal_with_fuel(Seq::<_>::filter, 1);
            assert(ls.take(i + 1).drop_last() =~= ls.take(i as int));
        }
        let t = trim_chars(all[i].as_slice());
        if t.len() > 0 {
            let line = all[i].clone();
            assert(line@ == all@[i as int]@);
            let ghost before = views(out@);
            out.push(line);
            assert(views(out@) =~= before.push(ls[i as int]));
        }
        i += 1;
    }
    assert(ls.take(i as int) =~= ls);
    out
}

fn is_header_field_exec(p: &[char]) -> (r: bool)
    ensures
        r == is_header_field(p@),
{
    contains_exec(p, &chars_of("測点")) || contains_exec(p, &chars_of("延長")) || contains_exec(
        p,
        &chars_of("幅員"),
    ) || lower_eq(p, &chars_of("name")) || lower_eq(p, &chars_of("x"))
}

fn has_header_exec(first: &Vec<Vec<char>>) -> (r: bool)
    ensures
        r == has_header(views(first@)),
{
    let ghost fv = views(first@);
    let mut i: usize = 0;
    while i < first.len()
        invariant
            i <= first@.len(),
            fv == views(first@),
            forall|j: int| 0 <= j < i ==> !is_header_field(#[trigger] fv[j]),
        decreases first@.len() - i,
    {
        if is_header_field_exec(first[i].as_slice()) {
            assert(is_header_field(fv[i as int]));
            return true;
        }
        i += 1;
    }
    false
}

fn same(p: &[char], word: &str) -> (r: bool)
    ensures
        r == (p@ == word@),
{
    crate::text::eq_chars(p, &chars_of(word))
}

/// The columns a header line names.
fn read_columns(first: &Vec<Vec<char>>) -> (r: (usize, usize, usize, Option<usize>))
    ensures
        ({
            let c = header_columns(views(first@), first@.len() as int);
            &&& r.0 == c.name
            &&& r.1 == c.x
            &&& r.2 == c.wl
            &&& match r.3 {
                Some(w) => c.wr == Some(w as int),
                None => c.wr is None,
            }
        }),
{
    let ghost fv = views(first@);
    let mut name_col: usize = 0;
    let mut x_col: usize = 1;
    let mut wl_col: usize = 2;
    let mut wr_col: Option<usize> = None;
    let mut i: usize = 0;
    while i < first.len()
        invariant
            i <= first@.len(),
            fv == views(first@),
            ({
                let c = header_columns(fv, i as int);
                &&& name_col == c.name
                &&& x_col == c.x
                &&& wl_col == c.wl
                &&& match wr_col {
                    Some(w) => c.wr == Some(w as int),
                    None => c.wr is None,
                }
            }),
        decreases first@.len() - i,
    {
        let lower = to_lowercase(string_of(first[i].as_slice()).as_str());
        let p = chars_of(lower.as_str());
        assert(p@ == str_lowercase(fv[i as int]));
        if contains_exec(&p, &chars_of("測点")) || same(&p, "name") {
            name_col = i;
        } else if contains_exec(&p, &chars_of("単延長")) || contains_exec(&p, &chars_of("延長"))
            || same(&p, "x") {
            x_col = i;
        } else if contains_exec(&p, &chars_of("平均幅員")) {
        } else if contains_exec(&p, &chars_of("幅員")) || same(&p, "wl") {
            wl_col = i;
        } else if same(&p, "wr") {
            wr_col = Some(i);
        }
        i += 1;
    }
    (name_col, x_col, wl_col, wr_col)
}

/// Field `c` of `p`, or the empty text.
pub(crate) fn field_of(p: &Vec<Vec<char>>, c: usize) -> (r: Vec<char>)
    ensures
        r@ == field_at(views(p@), c as int),
{
    if c < p.len() {
        p[c].clone()
    } else {
        Vec::new()
    }
}

/// The row of one line (see `survey_row`).
fn read_survey_row(line: &[char], name_col: usize, x_col: usize, wl_col: usize, wr_col: Option<
    usize,
>) -> (r: Option<RawRow>)
    ensures
        ({
            let cols = Columns {
                name: name_col as int,
                x: x_col as int,
                wl: wl_col as int,
                wr: match wr_col {
                    Some(w) => Some(w as int),
                    None => None,
                },
            };
            match r {
                Some(row) => survey_row(line@, cols) == Some(row@),
                None => survey_row(line@, cols) is None,
            }
        }),
{
    if line.len() > 0 && line[0] == '#' {
        return None;
    }
    let p = fields_of(line);
    let x = match NumText::from_chars(&field_of(&p, x_col)) {
        Some(x) => x,
        None => {
            return None;
        },
    };
    let name = string_of(&field_of(&p, name_col));
    let zero = NumText::zero();
    let wl = NumText::from_chars_or(&field_of(&p, wl_col), &zero);
    let wr = match wr_col {
        Some(c) => NumText::from_chars_or(&field_of(&p, c), &zero),
        None => zero,
    };
    Some(RawRow { name, x, wl, wr })
}

/// Reads a CSV block into survey rows. A first line with a field that
/// mentions 測点, 延長 or 幅員, or is `name` or `x`, is a header naming the
/// columns (a header without `wr` gives every row `wr` 0); otherwise the
/// columns are name, x, wl, wr. Comment lines (`#`) and lines whose
/// distance is not a number are skipped; `NoData` when no row is left.
pub fn parse_csv_block(block: &str) -> (r: Result<Vec<RawRow>, ParseError>)
    ensures
        rows_result(r) == spec_parse_block(block@),
{
    let chars = chars_of(block);
    let lines = nonblank_lines(&chars);
    let ghost ls = views(lines@);
    if lines.len() == 0 {
        return Err(ParseError::NoData);
    }
    let first = fields_of(lines[0].as_slice());
    assert(ls[0] == lines@[0]@);
    let ghost fv = views(first@);
    let header = has_header_exec(&first);
    let (name_col, x_col, wl_col, wr_col) = if header {
        read_columns(&first)
    } else {
        (0usize, 1usize, 2usize, Some(3usize))
    };
    let ghost cols = columns_of(fv);
    let start: usize = if header {
        1
    } else {
        0
    };
    let mut rows: Vec<RawRow> = Vec::new();
    let mut k: usize = start;
    assert(raw_views(rows@) + survey_rows(ls, start as int, cols) =~= survey_rows(
        ls,
        start as int,
        cols,
    ));
    while k < lines.len()
        invariant
            start <= k <= lines@.len(),
            ls == views(lines@),
            name_col == cols.name,
            x_col == cols.x,
            wl_col == cols.wl,
            match wr_col {
                Some(w) => cols.wr == Some(w as int),
                None => cols.wr is None,
            },
            raw_views(rows@) + survey_rows(ls, k as int, cols) == survey_rows(
                ls,
                start as int,
                cols,
            ),
        decreases lines@.len() - k,
    {
        assert(ls[k as int] == lines@[k as int]@);
        let ghost before = raw_views(rows@);
        match read_survey_row(lines[k].as_slice(), name_col, x_col, wl_col, wr_col) {
            Some(row) => {
                let ghost rv = row@;
                rows.push(row);
                assert(raw_views(rows@) =~= before.push(rv));
                assert(before + (seq![rv] + survey_rows(ls, k + 1, cols)) =~= before.push(rv)
                    + survey_rows(ls, k + 1, cols));
            },
            None => {
                assert(Seq::<RawRowView>::empty() + survey_rows(ls, k + 1, cols) =~= survey_rows(
                    ls,
                    k + 1,
                    cols,
                ));
            },
        }
        k += 1;
    }
    assert(survey_rows(ls, k as int, cols) =~= Seq::<RawRowView>::empty());
    assert(raw_views(rows@) + Seq::<RawRowView>::empty() =~= raw_views(rows@));
    if rows.len() == 0 {
        return Err(ParseError::NoData);
    }
    Ok(rows)
}

/// The error text of compiling a regular expression, `None` when it
/// compiles.
pub uninterp spec fn regex_compile_error(pattern: Seq<char>) -> Option<Seq<char>>;

/// Runs `regex::Regex::new(pattern)`; believed: the error's text, if any,
/// is the name `regex_compile_error` of the pattern.
#[verifier::external_body]
fn regex_error(pattern: &str) -> (r: Option<String>)
    ensures
        opt_string(r) == regex_compile_error(pattern@),
{
    match regex::Regex::new(pattern) {
        Ok(_) => None,
        Err(e) => Some(e.to_string()),
    }
}

/// The pattern of the block of section `name`: the header line
/// `name,台形計算…`, then (group 1) the lines up to the next `区間N` line
/// or the end of the text.
pub open spec fn section_pattern(name: Seq<char>) -> Seq<char> {
    regex_escape(name) + ",台形計算[^\\n]*\\n([\\s\\S]+?)(?:\\n区間\\d+|\\z)"@
}

/// The rows of section `name` of `text`: its block when the text has one,
/// trimmed, else the whole text.
pub open spec fn spec_extract_section(text: Seq<char>, name: Seq<char>) -> Result<
    Seq<RawRowView>,
    ParseErrorView,
> {
    let pattern = section_pattern(name);
    match regex_compile_error(pattern) {
        Some(m) => Err(ParseErrorView::InvalidFormat(m)),
        None => spec_parse_block(
            match regex_first_group(pattern, text) {
                Some(g) => trim(g),
                None => text,
            },
        ),
    }
}

/// Extracts the rows of a named section (such as `区間1`) from CSV text:
/// the block under its `区間X,台形計算` header, or the whole text when it
/// has no such header.
pub fn extract_section_data(text: &str, section_name: &str) -> (r: Result<Vec<RawRow>, ParseError>)
    ensures
        rows_result(r) == spec_extract_section(text@, section_name@),
{
    let mut pattern = escape_regex(section_name);
    pattern.append(",台形計算[^\\n]*\\n([\\s\\S]+?)(?:\\n区間\\d+|\\z)");
    assert(pattern@ == section_pattern(section_name@));
    match regex_error(pattern.as_str()) {
        Some(m) => {
            return Err(ParseError::InvalidFormat(m));
        },
        None => {},
    }
    match regex_first_capture(pattern.as_str(), text) {
        Some(g) => {
            let t = string_of(&trim_chars(&chars_of(g.as_str())));
            parse_csv_block(t.as_str())
        },
        None => parse_csv_block(text),
    }
}

} // verus!

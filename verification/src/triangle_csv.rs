//! Triangle-list CSV: an optional header block (`koujiname`, `rosenname`,
//! `gyousyaname`, `zumennum`) followed by triangle rows of 4 columns
//! (number, A, B, C) or 6 and more (plus parent number and connection type).

use vstd::prelude::*;

use crate::fields::{char_pos, csv_fields, decimal, fields_of, find_char_pos, push_decimal};
use crate::number::{is_float_literal, parse_i32, spec_parse_i32, NumText};
use crate::text::{
    chars_of, eq_chars, lines_of, slice_chars, split_lines, str_lowercase, string_of, to_lowercase,
    trim, trim_chars, views,
};

verus! {

broadcast use vstd::string::group_string_axioms;

/// The project data of the header block.
#[derive(Debug)]
pub struct CsvHeader {
    pub koujiname: String,
    pub rosenname: String,
    pub gyousyaname: String,
    pub zumennum: String,
}

pub struct HeaderView {
    pub koujiname: Seq<char>,
    pub rosenname: Seq<char>,
    pub gyousyaname: Seq<char>,
    pub zumennum: Seq<char>,
}

impl View for CsvHeader {
    type V = HeaderView;

    open spec fn view(&self) -> HeaderView {
        HeaderView {
            koujiname: self.koujiname@,
            rosenname: self.rosenname@,
            gyousyaname: self.gyousyaname@,
            zumennum: self.zumennum@,
        }
    }
}

/// The header with every field empty.
pub open spec fn empty_header() -> HeaderView {
    HeaderView {
        koujiname: Seq::empty(),
        rosenname: Seq::empty(),
        gyousyaname: Seq::empty(),
        zumennum: Seq::empty(),
    }
}

impl Default for CsvHeader {
    fn default() -> (r: CsvHeader)
        ensures
            r@ == empty_header(),
    {
        CsvHeader {
            koujiname: String::new(),
            rosenname: String::new(),
            gyousyaname: String::new(),
            zumennum: String::new(),
        }
    }
}

/// One triangle row; the lengths are kept as the literals the file holds.
#[derive(Debug)]
pub struct TriangleRow {
    pub number: i32,
    pub length_a: NumText,
    pub length_b: NumText,
    pub length_c: NumText,
    /// `-1` for an independent triangle.
    pub parent_number: i32,
    /// `-1` none, `1` on the parent's B edge, `2` on its C edge.
    pub connection_type: i32,
}

pub struct RowView {
    pub number: i32,
    pub length_a: Seq<char>,
    pub length_b: Seq<char>,
    pub length_c: Seq<char>,
    pub parent_number: i32,
    pub connection_type: i32,
}

impl View for TriangleRow {
    type V = RowView;

    open spec fn view(&self) -> RowView {
        RowView {
            number: self.number,
            length_a: self.length_a@,
            length_b: self.length_b@,
            length_c: self.length_c@,
            parent_number: self.parent_number,
            connection_type: self.connection_type,
        }
    }
}

/// A parsed file: its header and its triangles in file order.
#[derive(Debug)]
pub struct ParsedCsv {
    pub header: CsvHeader,
    pub triangles: Vec<TriangleRow>,
}

/// Why a triangle CSV was refused.
#[derive(Debug)]
pub enum CsvError {
    InvalidFormat(String),
    TooFewColumns { row: usize, got: usize, need: usize },
    InvalidNumber { row: usize, col: &'static str, value: String },
}

pub enum ErrView {
    Format(Seq<char>),
    TooFew(nat, nat, nat),
    BadNumber(nat, Seq<char>, Seq<char>),
}

impl View for CsvError {
    type V = ErrView;

    open spec fn view(&self) -> ErrView {
        match self {
            CsvError::InvalidFormat(m) => ErrView::Format(m@),
            CsvError::TooFewColumns { row, got, need } => ErrView::TooFew(
                *row as nat,
                *got as nat,
                *need as nat,
            ),
            CsvError::InvalidNumber { row, col, value } => ErrView::BadNumber(
                *row as nat,
                col@,
                value@,
            ),
        }
    }
}

/// The description of an error, as the error's `Display` writes it.
pub open spec fn error_message(e: ErrView) -> Seq<char> {
    match e {
        ErrView::Format(m) => "Invalid format: "@ + m,
        ErrView::TooFew(row, got, need) => "Row "@ + decimal(row) + ": got "@ + decimal(got)
            + " columns, need "@ + decimal(need),
        ErrView::BadNumber(row, col, value) => "Row "@ + decimal(row) + ": invalid "@ + col
            + " value '"@ + value + "'"@,
    }
}

impl CsvError {
    /// The error's description.
    pub fn message(&self) -> (r: String)
        ensures
            r@ == error_message(self@),
    {
        match self {
            CsvError::InvalidFormat(m) => {
                let mut r = String::from_str("Invalid format: ");
                r.append(m.as_str());
                r
            },
            CsvError::TooFewColumns { row, got, need } => {
                let mut r = String::from_str("Row ");
                push_decimal(&mut r, *row);
                r.append(": got ");
                push_decimal(&mut r, *got);
                r.append(" columns, need ");
                push_decimal(&mut r, *need);
                r
            },
            CsvError::InvalidNumber { row, col, value } => {
                let mut r = String::from_str("Row ");
                push_decimal(&mut r, *row);
                r.append(": invalid ");
                r.append(col);
                r.append(" value '");
                r.append(value.as_str());
                r.append("'");
                r
            },
        }
    }
}

/// The lower-cased key and trimmed value of a `key, value` header line;
/// `None` for a line without a comma.
pub open spec fn header_entry(line: Seq<char>) -> Option<(Seq<char>, Seq<char>)> {
    match char_pos(line, ',') {
        Some(k) => Some((str_lowercase(trim(line.take(k))), trim(line.skip(k + 1)))),
        None => None,
    }
}

/// The header read from line `i` on, with `h` read so far, and the line
/// where the data rows start. Reading stops at the first line that is not
/// a header entry (data start there) and after `zumennum` (data start
/// after it); when every line is a header entry without `zumennum`, the
/// data start at line 0.
pub open spec fn scan_header(lines: Seq<Seq<char>>, i: int, h: HeaderView) -> (HeaderView, int)
    decreases lines.len() - i,
{
    if i < 0 || i >= lines.len() {
        (h, 0)
    } else {
        match header_entry(lines[i]) {
            None => (h, i),
            Some(kv) => {
                let (key, val) = kv;
                if key == "koujiname"@ {
                    scan_header(lines, i + 1, HeaderView { koujiname: val, ..h })
                } else if key == "rosenname"@ {
                    scan_header(lines, i + 1, HeaderView { rosenname: val, ..h })
                } else if key == "gyousyaname"@ {
                    scan_header(lines, i + 1, HeaderView { gyousyaname: val, ..h })
                } else if key == "zumennum"@ {
                    (HeaderView { zumennum: val, ..h }, i + 1)
                } else {
                    (h, i)
                }
            },
        }
    }
}

pub open spec fn bad_number(row: nat, col: Seq<char>, value: Seq<char>) -> ErrView {
    ErrView::BadNumber(row, col, value)
}

/// The triangle of one data line (`row` is its 1-based line number); `None`
/// for a blank line.
pub open spec fn parse_row(line: Seq<char>, row: nat) -> Result<Option<RowView>, ErrView> {
    let t = trim(line);
    if t.len() == 0 {
        Ok(None)
    } else {
        let p = csv_fields(t);
        if p.len() < 4 {
            Err(ErrView::TooFew(row, p.len(), 4))
        } else {
            match spec_parse_i32(p[0]) {
                None => Err(bad_number(row, "number"@, p[0])),
                Some(number) => if !is_float_literal(p[1]) {
                    Err(bad_number(row, "length_a"@, p[1]))
                } else if !is_float_literal(p[2]) {
                    Err(bad_number(row, "length_b"@, p[2]))
                } else if !is_float_literal(p[3]) {
                    Err(bad_number(row, "length_c"@, p[3]))
                } else if p.len() >= 6 {
                    match spec_parse_i32(p[4]) {
                        None => Err(bad_number(row, "parent_number"@, p[4])),
                        Some(pn) => match spec_parse_i32(p[5]) {
                            None => Err(bad_number(row, "connection_type"@, p[5])),
                            Some(ct) => Ok(
                                Some(
                                    RowView {
                                        number,
                                        length_a: p[1],
                                        length_b: p[2],
                                        length_c: p[3],
                                        parent_number: pn,
                                        connection_type: ct,
                                    },
                                ),
                            ),
                        },
                    }
                } else {
                    Ok(
                        Some(
                            RowView {
                                number,
                                length_a: p[1],
                                length_b: p[2],
                                length_c: p[3],
                                parent_number: -1i32,
                                connection_type: -1i32,
                            },
                        ),
                    )
                },
            }
        }
    }
}

/// The triangles of lines `k..`, or the error of the first bad line.
pub open spec fn scan_rows(lines: Seq<Seq<char>>, k: int) -> Result<Seq<RowView>, ErrView>
    decreases lines.len() - k,
{
    if k < 0 || k >= lines.len() {
        Ok(Seq::empty())
    } else {
        match parse_row(lines[k], (k + 1) as nat) {
            Err(e) => Err(e),
            Ok(r) => match scan_rows(lines, k + 1) {
                Err(e) => Err(e),
                Ok(rs) => Ok(
                    match r {
                        Some(x) => seq![x] + rs,
                        None => rs,
                    },
                ),
            },
        }
    }
}

/// `rows` followed by the outcome `rest`.
pub open spec fn then_rows(rows: Seq<RowView>, rest: Result<Seq<RowView>, ErrView>) -> Result<
    Seq<RowView>,
    ErrView,
> {
    match rest {
        Ok(rs) => Ok(rows + rs),
        Err(e) => Err(e),
    }
}

/// What a triangle CSV text parses to: its header and triangles, or why it
/// was refused.
pub open spec fn spec_parse_csv(text: Seq<char>) -> Result<(HeaderView, Seq<RowView>), ErrView> {
    let lines = split_lines(text);
    if lines.len() == 0 {
        Err(ErrView::Format("Empty input"@))
    } else {
        let (h, start) = scan_header(lines, 0, empty_header());
        if start >= lines.len() {
            Err(ErrView::Format("No data rows after header"@))
        } else {
            match scan_rows(lines, start) {
                Err(e) => Err(e),
                Ok(rs) => if rs.len() == 0 {
                    Err(ErrView::Format("No triangle rows found"@))
                } else {
                    Ok((h, rs))
                },
            }
        }
    }
}

pub open spec fn row_views(v: Seq<TriangleRow>) -> Seq<RowView> {
    Seq::new(v.len(), |i: int| v[i]@)
}

pub open spec fn parsed_view(r: Result<ParsedCsv, CsvError>) -> Result<
    (HeaderView, Seq<RowView>),
    ErrView,
> {
    match r {
        Ok(p) => Ok((p.header@, row_views(p.triangles@))),
        Err(e) => Err(e@),
    }
}

fn key_is(key: &[char], word: &str) -> (r: bool)
    ensures
        r == (key@ == word@),
{
    let w = chars_of(word);
    eq_chars(key, &w)
}

/// Reads the header block of `lines`.
fn read_header(lines: &Vec<Vec<char>>) -> (r: (CsvHeader, usize))
    ensures
        (r.0@, r.1 as int) == scan_header(views(lines@), 0, empty_header()),
        r.1 <= lines@.len(),
{
    let ghost ls = views(lines@);
    let mut h = CsvHeader::default();
    let mut i: usize = 0;
    while i < lines.len()
        invariant
            i <= lines@.len(),
            ls == views(lines@),
            scan_header(ls, 0, empty_header()) == scan_header(ls, i as int, h@),
        decreases lines@.len() - i,
    {
        let line = &lines[i];
        assert(ls[i as int] == line@);
        match find_char_pos(line.as_slice(), ',') {
            None => {
                return (h, i);
            },
            Some(k) => {
                proof {
                    crate::fields::lemma_char_pos_bounds(line@, ',');
                }
                let n = line.len();
                assert(k < n);
                let before = trim_chars(&slice_chars(line.as_slice(), 0, k));
                let lower = to_lowercase(string_of(&before).as_str());
                let key = chars_of(lower.as_str());
                let after = trim_chars(&slice_chars(line.as_slice(), k + 1, n));
                let val = string_of(&after);
                proof {
                    assert(line@.take(k as int) =~= line@.subrange(0, k as int));
                    assert(line@.skip(k + 1) =~= line@.subrange(k + 1, line@.len() as int));
                }
                if key_is(&key, "koujiname") {
                    h.koujiname = val;
                } else if key_is(&key, "rosenname") {
                    h.rosenname = val;
                } else if key_is(&key, "gyousyaname") {
                    h.gyousyaname = val;
                } else if key_is(&key, "zumennum") {
                    h.zumennum = val;
                    return (h, i + 1);
                } else {
                    return (h, i);
                }
            },
        }
        i += 1;
    }
    (h, 0)
}

fn number_error(row: usize, col: &'static str, value: &[char]) -> (e: CsvError)
    ensures
        e@ == bad_number(row as nat, col@, value@),
{
    CsvError::InvalidNumber { row, col, value: string_of(value) }
}

pub open spec fn row_outcome(r: Result<Option<TriangleRow>, CsvError>) -> Result<
    Option<RowView>,
    ErrView,
> {
    match r {
        Ok(Some(t)) => Ok(Some(t@)),
        Ok(None) => Ok(None),
        Err(e) => Err(e@),
    }
}

/// The triangle of one data line (see `parse_row`).
fn read_row(line: &[char], row: usize) -> (r: Result<Option<TriangleRow>, CsvError>)
    ensures
        row_outcome(r) == parse_row(line@, row as nat),
{
    let t = trim_chars(line);
    if t.len() == 0 {
        return Ok(None);
    }
    let p = fields_of(&t);
    let ghost pv = views(p@);
    assert(pv == csv_fields(t@));
    if p.len() < 4 {
        return Err(CsvError::TooFewColumns { row, got: p.len(), need: 4 });
    }
    assert(pv[0] == p[0]@ && pv[1] == p[1]@ && pv[2] == p[2]@ && pv[3] == p[3]@);
    let number = match parse_i32(p[0].as_slice()) {
        Some(n) => n,
        None => {
            return Err(number_error(row, "number", p[0].as_slice()));
        },
    };
    let length_a = match NumText::from_chars(p[1].as_slice()) {
        Some(n) => n,
        None => {
            return Err(number_error(row, "length_a", p[1].as_slice()));
        },
    };
    let length_b = match NumText::from_chars(p[2].as_slice()) {
        Some(n) => n,
        None => {
            return Err(number_error(row, "length_b", p[2].as_slice()));
        },
    };
    let length_c = match NumText::from_chars(p[3].as_slice()) {
        Some(n) => n,
        None => {
            return Err(number_error(row, "length_c", p[3].as_slice()));
        },
    };
    let (parent_number, connection_type) = if p.len() >= 6 {
        assert(pv[4] == p[4]@ && pv[5] == p[5]@);
        let pn = match parse_i32(p[4].as_slice()) {
            Some(n) => n,
            None => {
                return Err(number_error(row, "parent_number", p[4].as_slice()));
            },
        };
        let ct = match parse_i32(p[5].as_slice()) {
            Some(n) => n,
            None => {
                return Err(number_error(row, "connection_type", p[5].as_slice()));
            },
        };
        (pn, ct)
    } else {
        (-1i32, -1i32)
    };
    Ok(
        Some(
            TriangleRow {
                number,
                length_a,
                length_b,
                length_c,
                parent_number,
                connection_type,
            },
        ),
    )
}

/// Parses triangle-list CSV text: the header block, then one triangle per
/// non-blank line. Refused: empty text, no line after the header, a line
/// of fewer than 4 fields, a field that is not a number, no triangle.
pub fn parse_csv(text: &str) -> (r: Result<ParsedCsv, CsvError>)
    ensures
        parsed_view(r) == spec_parse_csv(text@),
{
    let chars = chars_of(text);
    let lines = lines_of(&chars);
    let ghost ls = views(lines@);
    assert(ls == split_lines(text@));
    if lines.len() == 0 {
        return Err(CsvError::InvalidFormat(String::from_str("Empty input")));
    }
    let (header, start) = read_header(&lines);
    assert(scan_header(ls, 0, empty_header()).1 == start as int);
    assert(scan_header(ls, 0, empty_header()).0 == header@);
    if start >= lines.len() {
        return Err(CsvError::InvalidFormat(String::from_str("No data rows after header")));
    }
    let mut triangles: Vec<TriangleRow> = Vec::new();
    let mut k: usize = start;
    assert(row_views(triangles@) + Seq::<RowView>::empty() =~= Seq::<RowView>::empty());
    while k < lines.len()
        invariant
            start <= k <= lines@.len(),
            start < lines@.len(),
            ls == views(lines@),
            ls == split_lines(text@),
            scan_header(ls, 0, empty_header()).1 == start as int,
            scan_rows(ls, start as int) == then_rows(row_views(triangles@), scan_rows(ls, k as int)),
        decreases lines@.len() - k,
    {
        assert(ls[k as int] == lines@[k as int]@);
        let ghost before = row_views(triangles@);
        let res = read_row(lines[k].as_slice(), k + 1);
        assert(row_outcome(res) == parse_row(ls[k as int], (k + 1) as nat));
        match res {
            Err(e) => {
                assert(scan_rows(ls, k as int) == Err::<Seq<RowView>, ErrView>(e@));
                return Err(e);
            },
            Ok(None) => {},
            Ok(Some(t)) => {
                let ghost tv = t@;
                triangles.push(t);
                assert(row_views(triangles@) =~= before.push(tv));
                proof {
                    if let Ok(rs) = scan_rows(ls, k + 1) {
                        assert(before + (seq![tv] + rs) =~= before.push(tv) + rs);
                    }
                }
            },
        }
        k += 1;
    }
    let ghost all = row_views(triangles@);
    assert(all + Seq::<RowView>::empty() =~= all);
    if triangles.len() == 0 {
        return Err(CsvError::InvalidFormat(String::from_str("No triangle rows found")));
    }
    Ok(ParsedCsv { header, triangles })
}

/// A row of fewer than six fields (the MIN format) is an independent
/// triangle: no parent and no connection.
pub proof fn law_short_rows_are_independent(line: Seq<char>, row: nat)
    requires
        parse_row(line, row) is Ok,
        parse_row(line, row)->Ok_0 is Some,
        csv_fields(trim(line)).len() < 6,
    ensures
        (parse_row(line, row)->Ok_0->Some_0).parent_number == -1,
        (parse_row(line, row)->Ok_0->Some_0).connection_type == -1,
{
}

} // verus!

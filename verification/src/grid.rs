//! Grid editor data: survey rows typed into a table (station name, distance,
//! left and right width), read from CSV text with full-width numbers
//! normalized.

use vstd::prelude::*;

use crate::fields::{csv_fields, fields_of};
use crate::number::{is_float_literal, num_or, zero_text, NumText};
use crate::text::{
    chars_of, contains, contains_exec, lines_of, split_lines, str_lowercase, string_of,
    to_lowercase, trim, trim_chars, views,
};

verus! {

/// The ASCII form of a full-width digit, full-width full stop, full-width
/// hyphen-minus or katakana prolonged sound mark; any other character is
/// kept.
pub open spec fn normalize_char(c: char) -> char {
    let u = c as u32;
    if 0xFF10 <= u <= 0xFF19 {
        ((u - 0xFF10 + 0x30) as u32) as char
    } else if u == 0xFF0E {
        '.'
    } else if u == 0xFF0D || u == 0x30FC {
        '-'
    } else {
        c
    }
}

fn normalize_char_exec(c: char) -> (r: char)
    ensures
        r == normalize_char(c),
{
    match c {
        '０' => '0',
        '１' => '1',
        '２' => '2',
        '３' => '3',
        '４' => '4',
        '５' => '5',
        '６' => '6',
        '７' => '7',
        '８' => '8',
        '９' => '9',
        '．' => '.',
        '－' | 'ー' => '-',
        _ => c,
    }
}

/// Full-width digits and signs replaced by their ASCII forms, character by
/// character.
pub fn normalize_number(s: &str) -> (r: String)
    ensures
        r@ == s@.map_values(|c: char| normalize_char(c)),
{
    let cs = crate::text::chars_of(s);
    let mut out: Vec<char> = Vec::new();
    let mut i: usize = 0;
    while i < cs.len()
        invariant
            i <= cs@.len(),
            cs@ == s@,
            out@ == s@.take(i as int).map_values(|c: char| normalize_char(c)),
        decreases cs@.len() - i,
    {
        out.push(normalize_char_exec(cs[i]));
        assert(s@.take(i + 1).map_values(|c: char| normalize_char(c)) =~= s@.take(
            i as int,
        ).map_values(|c: char| normalize_char(c)).push(normalize_char(s@[i as int])));
        i += 1;
    }
    assert(s@.take(i as int) =~= s@);
    crate::text::string_of(&out)
}

/// The characters of `s`, each normalized.
pub open spec fn normalize_text(s: Seq<char>) -> Seq<char> {
    s.map_values(|c: char| normalize_char(c))
}

fn normalize_chars(v: &[char]) -> (r: Vec<char>)
    ensures
        r@ == normalize_text(v@),
{
    let mut out: Vec<char> = Vec::new();
    let mut i: usize = 0;
    while i < v.len()
        invariant
            i <= v@.len(),
            out@ == normalize_text(v@.take(i as int)),
        decreases v@.len() - i,
    {
        out.push(normalize_char_exec(v[i]));
        assert(normalize_text(v@.take(i + 1)) =~= normalize_text(v@.take(i as int)).push(
            normalize_char(v@[i as int]),
        ));
        i += 1;
    }
    assert(v@.take(i as int) =~= v@);
    out
}

/// One row of the grid editor; the numbers are kept as literals.
#[derive(Debug)]
pub struct GridRow {
    pub name: String,
    pub x: NumText,
    pub wl: NumText,
    pub wr: NumText,
}

pub struct GridRowView {
    pub name: Seq<char>,
    pub x: Seq<char>,
    pub wl: Seq<char>,
    pub wr: Seq<char>,
}

impl View for GridRow {
    type V = GridRowView;

    open spec fn view(&self) -> GridRowView {
        GridRowView { name: self.name@, x: self.x@, wl: self.wl@, wr: self.wr@ }
    }
}

pub open spec fn grid_views(v: Seq<GridRow>) -> Seq<GridRowView> {
    Seq::new(v.len(), |i: int| v[i]@)
}

/// A first field that marks a header row: lower-cased, it mentions 測点,
/// `name`, `station` or 延長.
pub open spec fn is_grid_header(first: Seq<char>) -> bool {
    let l = str_lowercase(first);
    contains(l, "測点"@) || contains(l, "name"@) || contains(l, "station"@) || contains(l, "延長"@)
}

/// Width field `c` of `p` normalized, `0` when missing or not a number.
pub open spec fn grid_width(p: Seq<Seq<char>>, c: int) -> Seq<char> {
    if c < p.len() {
        num_or(normalize_text(p[c]), zero_text())
    } else {
        zero_text()
    }
}

/// The grid row of one CSV line: none for a blank line, a line of fewer
/// than two fields, a header line, or a line whose distance is not a number.
pub open spec fn grid_row(line: Seq<char>) -> Option<GridRowView> {
    let t = trim(line);
    if t.len() == 0 {
        None
    } else {
        let p = csv_fields(t);
        if p.len() < 2 || is_grid_header(p[0]) || !is_float_literal(normalize_text(p[1])) {
            None
        } else {
            Some(
                GridRowView {
                    name: p[0],
                    x: normalize_text(p[1]),
                    wl: grid_width(p, 2),
                    wr: grid_width(p, 3),
                },
            )
        }
    }
}

/// The grid rows of lines `k..`.
pub open spec fn grid_rows(lines: Seq<Seq<char>>, k: int) -> Seq<GridRowView>
    decreases lines.len() - k,
{
    if k < 0 || k >= lines.len() {
        Seq::empty()
    } else {
        let here = match grid_row(lines[k]) {
            Some(r) => seq![r],
            None => Seq::empty(),
        };
        here + grid_rows(lines, k + 1)
    }
}

/// A CSV line of the grid editor gives a row exactly when it is not blank,
/// has at least two fields, its first field is not a header and its second
/// field, normalized, is a number. The row holds the first field as name,
/// the normalized second as distance, and the third and fourth as left and
/// right width when they are numbers, 0 when they are missing or are not.
pub proof fn law_grid_row(line: Seq<char>)
    ensures
        ({
            let t = trim(line);
            let p = csv_fields(t);
            &&& grid_row(line) is Some <==> (t.len() > 0 && p.len() >= 2 && !is_grid_header(p[0])
                && is_float_literal(normalize_text(p[1])))
            &&& grid_row(line) matches Some(r) ==> {
                &&& r.name == p[0]
                &&& r.x == normalize_text(p[1])
                &&& p.len() <= 2 ==> r.wl == zero_text()
                &&& p.len() <= 3 ==> r.wr == zero_text()
                &&& p.len() > 2 ==> r.wl == (if is_float_literal(normalize_text(p[2])) {
                    normalize_text(p[2])
                } else {
                    zero_text()
                })
                &&& p.len() > 3 ==> r.wr == (if is_float_literal(normalize_text(p[3])) {
                    normalize_text(p[3])
                } else {
                    zero_text()
                })
            }
        }),
{
}

fn grid_width_exec(p: &Vec<Vec<char>>, c: usize) -> (r: NumText)
    ensures
        r@ == grid_width(views(p@), c as int),
{
    if c < p.len() {
        NumText::from_chars_or(&normalize_chars(p[c].as_slice()), &NumText::zero())
    } else {
        NumText::zero()
    }
}

fn header_first_field(first: &[char]) -> (r: bool)
    ensures
        r == is_grid_header(first@),
{
    let lower = to_lowercase(string_of(first).as_str());
    let l = chars_of(lower.as_str());
    contains_exec(&l, &chars_of("測点")) || contains_exec(&l, &chars_of("name")) || contains_exec(
        &l,
        &chars_of("station"),
    ) || contains_exec(&l, &chars_of("延長"))
}

fn read_grid_row(line: &[char]) -> (r: Option<GridRow>)
    ensures
        match r {
            Some(row) => grid_row(line@) == Some(row@),
            None => grid_row(line@) is None,
        },
{
    let t = trim_chars(line);
    if t.len() == 0 {
        return None;
    }
    let p = fields_of(&t);
    let ghost pv = views(p@);
    if p.len() < 2 {
        return None;
    }
    assert(pv[0] == p@[0]@ && pv[1] == p@[1]@);
    if header_first_field(p[0].as_slice()) {
        return None;
    }
    let x = match NumText::from_chars(&normalize_chars(p[1].as_slice())) {
        Some(x) => x,
        None => {
            return None;
        },
    };
    let name = string_of(p[0].as_slice());
    let wl = grid_width_exec(&p, 2);
    let wr = grid_width_exec(&p, 3);
    Some(GridRow { name, x, wl, wr })
}

/// Reads CSV text into grid rows: each non-blank line of two or more
/// fields whose first field is not a header and whose distance, with
/// full-width characters normalized, is a number; missing or non-numeric
/// widths are 0.
pub fn csv_to_grid(csv: &str) -> (r: Vec<GridRow>)
    ensures
        grid_views(r@) == grid_rows(split_lines(csv@), 0),
{
    let lines = lines_of(&chars_of(csv));
    let ghost ls = views(lines@);
    let mut rows: Vec<GridRow> = Vec::new();
    let mut k: usize = 0;
    assert(grid_views(rows@) + grid_rows(ls, 0) =~= grid_rows(ls, 0));
    while k < lines.len()
        invariant
            k <= lines@.len(),
            ls == views(lines@),
            grid_views(rows@) + grid_rows(ls, k as int) == grid_rows(ls, 0),
        decreases lines@.len() - k,
    {
        assert(ls[k as int] == lines@[k as int]@);
        let ghost before = grid_views(rows@);
        match read_grid_row(lines[k].as_slice()) {
            Some(row) => {
                let ghost rv = row@;
                rows.push(row);
                assert(grid_views(rows@) =~= before.push(rv));
                assert(before + (seq![rv] + grid_rows(ls, k + 1)) =~= before.push(rv) + grid_rows(
                    ls,
                    k + 1,
                ));
            },
            None => {
                assert(Seq::<GridRowView>::empty() + grid_rows(ls, k + 1) =~= grid_rows(ls, k + 1));
            },
        }
        k += 1;
    }
    assert(grid_rows(ls, k as int) =~= Seq::<GridRowView>::empty());
    assert(grid_views(rows@) + Seq::<GridRowView>::empty() =~= grid_views(rows@));
    rows
}

} // verus!

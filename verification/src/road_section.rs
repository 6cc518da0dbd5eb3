//! Station data of a road section (測点名, distance, left and right width)
//! read from CSV text, with or without a header line.

use vstd::prelude::*;

use crate::fields::{csv_fields, decimal, fields_of, push_decimal};
use crate::number::{is_float_literal, num_or, zero_text, NumText};
use crate::survey::{field_at, field_of};
use crate::text::{
    find, lemma_find_bounds,
    chars_of, contains, contains_exec, eq_chars, lines_of, split_lines, str_lowercase, string_of,
    to_lowercase, trim, trim_chars, views,
};

verus! {

broadcast use vstd::string::group_string_axioms;

/// One station: its name, cumulative distance and widths, the numbers kept
/// as literals.
#[derive(Debug)]
pub struct StationData {
    pub name: String,
    pub x: NumText,
    pub wl: NumText,
    pub wr: NumText,
}

pub struct StationView {
    pub name: Seq<char>,
    pub x: Seq<char>,
    pub wl: Seq<char>,
    pub wr: Seq<char>,
}

impl View for StationData {
    type V = StationView;

    open spec fn view(&self) -> StationView {
        StationView { name: self.name@, x: self.x@, wl: self.wl@, wr: self.wr@ }
    }
}

impl StationData {
    pub fn new(name: &str, x: NumText, wl: NumText, wr: NumText) -> (r: StationData)
        ensures
            r@ == (StationView { name: name@, x: x@, wl: wl@, wr: wr@ }),
    {
        StationData { name: String::from_str(name), x, wl, wr }
    }
}

pub open spec fn station_views(v: Seq<StationData>) -> Seq<StationView> {
    Seq::new(v.len(), |i: int| v[i]@)
}

/// A field that marks the first line as a header: it mentions 測点, 延長
/// or 幅員, or, lower-cased, `name` or `station`.
pub open spec fn is_station_header_field(p: Seq<char>) -> bool {
    ||| contains(p, "測点"@)
    ||| contains(p, "延長"@)
    ||| contains(p, "幅員"@)
    ||| contains(str_lowercase(p), "name"@)
    ||| contains(str_lowercase(p), "station"@)
}

pub open spec fn has_station_header(first: Seq<Seq<char>>) -> bool {
    exists|i: int| 0 <= i < first.len() && is_station_header_field(#[trigger] first[i])
}

/// Column positions of name, distance, left and right width.
pub struct StationColumns {
    pub name: int,
    pub x: int,
    pub wl: int,
    pub wr: int,
}

pub open spec fn default_columns() -> StationColumns {
    StationColumns { name: 0, x: 1, wl: 2, wr: 3 }
}

/// The columns after reading header field `p` (lower-cased) at `i`.
pub open spec fn assign_station_column(c: StationColumns, i: int, p: Seq<char>) -> StationColumns {
    if contains(p, "測点"@) || contains(p, "name"@) || contains(p, "station"@) {
        StationColumns { name: i, ..c }
    } else if contains(p, "延長"@) || contains(p, "距離"@) || p == "x"@ {
        StationColumns { x: i, ..c }
    } else if contains(p, "左"@) || p == "wl"@ {
        StationColumns { wl: i, ..c }
    } else if contains(p, "右"@) || p == "wr"@ {
        StationColumns { wr: i, ..c }
    } else {
        c
    }
}

/// The columns named by the first `n` lower-cased header fields `low`.
pub open spec fn columns_of_lowered(low: Seq<Seq<char>>, n: int) -> StationColumns
    decreases n,
{
    if n <= 0 || n > low.len() {
        default_columns()
    } else {
        assign_station_column(columns_of_lowered(low, n - 1), n - 1, low[n - 1])
    }
}

/// The header fields lower-cased.
pub open spec fn lowered_fields(first: Seq<Seq<char>>) -> Seq<Seq<char>> {
    first.map_values(|f: Seq<char>| str_lowercase(f))
}

/// The columns named by the first `n` header fields.
pub open spec fn station_columns(first: Seq<Seq<char>>, n: int) -> StationColumns {
    columns_of_lowered(lowered_fields(first), n)
}

/// Whether a lower-cased header field names a column of its own and so
/// takes that column over: names of the station (測点, name, station),
/// the distance (延長, 距離, x), the left (左, wl) and right (右, wr) width.
pub open spec fn names_column(p: Seq<char>) -> bool {
    ||| contains(p, "測点"@) || contains(p, "name"@) || contains(p, "station"@)
    ||| contains(p, "延長"@) || contains(p, "距離"@) || p == "x"@
    ||| contains(p, "左"@) || p == "wl"@
    ||| contains(p, "右"@) || p == "wr"@
}

/// A header read left to right: the column of the left width is the last
/// field that is exactly `wl` when no later field names any column, and
/// likewise `wr` for the right width, `x` for the distance; with no field
/// that names a column the columns are name, x, wl, wr in this order.
pub proof fn law_header_columns(low: Seq<Seq<char>>, j: int)
    ensures
        0 <= j < low.len() && (forall|i: int| j < i < low.len() ==> !names_column(#[trigger] low[i]))
            ==> {
            &&& low[j] == "wl"@ ==> columns_of_lowered(low, low.len() as int).wl == j
            &&& low[j] == "wr"@ ==> columns_of_lowered(low, low.len() as int).wr == j
            &&& low[j] == "x"@ ==> columns_of_lowered(low, low.len() as int).x == j
            &&& low[j] == "name"@ ==> columns_of_lowered(low, low.len() as int).name == j
        },
        (forall|i: int| 0 <= i < low.len() ==> !names_column(#[trigger] low[i]))
            ==> columns_of_lowered(low, low.len() as int) == (StationColumns {
            name: 0,
            x: 1,
            wl: 2,
            wr: 3,
        }),
{
    if forall|i: int| 0 <= i < low.len() ==> !names_column(#[trigger] low[i]) {
        lemma_columns_unnamed(low, low.len() as int);
    }
    if 0 <= j < low.len() && (forall|i: int| j < i < low.len() ==> !names_column(#[trigger] low[i])) {
        lemma_columns_after(low, j, low.len() as int);
    }
}

proof fn lemma_wl_wr_x_words()
    ensures
        !contains("wl"@, "測点"@), !contains("wl"@, "name"@), !contains("wl"@, "station"@),
        !contains("wl"@, "延長"@), !contains("wl"@, "距離"@), "wl"@ != "x"@,
        !contains("wl"@, "左"@),
        !contains("wr"@, "測点"@), !contains("wr"@, "name"@), !contains("wr"@, "station"@),
        !contains("wr"@, "延長"@), !contains("wr"@, "距離"@), "wr"@ != "x"@,
        !contains("wr"@, "左"@), "wr"@ != "wl"@, !contains("wr"@, "右"@),
        !contains("x"@, "測点"@), !contains("x"@, "name"@), !contains("x"@, "station"@),
        !contains("x"@, "延長"@), !contains("x"@, "距離"@),
        contains("name"@, "name"@),
{
    reveal_strlit("wl");
    reveal_strlit("wr");
    reveal_strlit("x");
    reveal_strlit("name");
    lemma_find_bounds("name"@, "name"@);
    assert("name"@.subrange(0, 4) =~= "name"@);
    assert(contains("name"@, "name"@));
    reveal_strlit("測点");
    reveal_strlit("name");
    reveal_strlit("station");
    reveal_strlit("延長");
    reveal_strlit("距離");
    reveal_strlit("左");
    reveal_strlit("右");
    lemma_not_contains("wl"@, "測点"@);
    lemma_not_contains("wl"@, "name"@);
    lemma_not_contains("wl"@, "station"@);
    lemma_not_contains("wl"@, "延長"@);
    lemma_not_contains("wl"@, "距離"@);
    lemma_not_contains("wl"@, "左"@);
    lemma_not_contains("wr"@, "測点"@);
    lemma_not_contains("wr"@, "name"@);
    lemma_not_contains("wr"@, "station"@);
    lemma_not_contains("wr"@, "延長"@);
    lemma_not_contains("wr"@, "距離"@);
    lemma_not_contains("wr"@, "左"@);
    lemma_not_contains("wr"@, "右"@);
    lemma_not_contains("x"@, "測点"@);
    lemma_not_contains("x"@, "name"@);
    lemma_not_contains("x"@, "station"@);
    lemma_not_contains("x"@, "延長"@);
    lemma_not_contains("x"@, "距離"@);
    assert("wl"@.len() != "x"@.len());
    assert("wr"@.len() != "x"@.len());
    assert("wr"@[1] != "wl"@[1]);
}

/// `n` does not occur in `h` when no place where it would fit starts with
/// its first character.
proof fn lemma_not_contains(h: Seq<char>, n: Seq<char>)
    requires
        n.len() > 0,
        forall|k: int| 0 <= k && k + n.len() <= h.len() ==> h[k] != n[0],
    ensures
        !contains(h, n),
{
    lemma_find_bounds(h, n);
    if let Some(k) = find(h, n) {
        assert(h.subrange(k, k + n.len())[0] == h[k]);
    }
}

proof fn lemma_columns_unnamed(low: Seq<Seq<char>>, n: int)
    requires
        0 <= n <= low.len(),
        forall|i: int| 0 <= i < n ==> !names_column(#[trigger] low[i]),
    ensures
        columns_of_lowered(low, n) == default_columns(),
    decreases n,
{
    if n > 0 {
        assert(!names_column(low[n - 1]));
        lemma_columns_unnamed(low, n - 1);
    }
}

proof fn lemma_columns_after(low: Seq<Seq<char>>, j: int, n: int)
    requires
        0 <= j < n <= low.len(),
        forall|i: int| j < i < low.len() ==> !names_column(#[trigger] low[i]),
    ensures
        low[j] == "wl"@ ==> columns_of_lowered(low, n).wl == j,
        low[j] == "wr"@ ==> columns_of_lowered(low, n).wr == j,
        low[j] == "x"@ ==> columns_of_lowered(low, n).x == j,
        low[j] == "name"@ ==> columns_of_lowered(low, n).name == j,
    decreases n,
{
    if n > j + 1 {
        assert(!names_column(low[n - 1]));
        lemma_columns_after(low, j, n - 1);
    } else {
        lemma_wl_wr_x_words();
    }
}

/// The error of line `k` (0-based) whose distance is not a number.
pub open spec fn bad_x_message(k: nat) -> Seq<char> {
    "Line "@ + decimal(k + 1) + ": invalid x value"@
}

/// The station of line `k`: none for a blank or `#` line or one of fewer
/// than 4 fields; an error when its distance is not a number; widths that
/// are not numbers are 0.
pub open spec fn station_row(line: Seq<char>, k: nat, cols: StationColumns) -> Result<
    Option<StationView>,
    Seq<char>,
> {
    let t = trim(line);
    if t.len() == 0 || t[0] == '#' {
        Ok(None)
    } else {
        let p = csv_fields(t);
        if p.len() < 4 {
            Ok(None)
        } else if !is_float_literal(field_at(p, cols.x)) {
            Err(bad_x_message(k))
        } else {
            Ok(
                Some(
                    StationView {
                        name: field_at(p, cols.name),
                        x: field_at(p, cols.x),
                        wl: num_or(field_at(p, cols.wl), zero_text()),
                        wr: num_or(field_at(p, cols.wr), zero_text()),
                    },
                ),
            )
        }
    }
}

/// A station read from a line takes each value from the field under its
/// column: the name from the name column, the distance from the distance
/// column, the left width from the left-width column and the right width
/// from the right-width column (a width that is not a number is 0).
pub proof fn law_station_fields(line: Seq<char>, k: nat, cols: StationColumns)
    ensures
        station_row(line, k, cols) matches Ok(Some(st)) ==> {
            let p = csv_fields(trim(line));
            &&& p.len() >= 4
            &&& st.name == field_at(p, cols.name)
            &&& st.x == field_at(p, cols.x) && is_float_literal(st.x)
            &&& st.wl == num_or(field_at(p, cols.wl), zero_text())
            &&& st.wr == num_or(field_at(p, cols.wr), zero_text())
        },
{
}

/// The stations of lines `k..`, or the error of the first bad line.
pub open spec fn stations_from(lines: Seq<Seq<char>>, k: int, cols: StationColumns) -> Result<
    Seq<StationView>,
    Seq<char>,
>
    decreases lines.len() - k,
{
    if k < 0 || k >= lines.len() {
        Ok(Seq::empty())
    } else {
        match station_row(lines[k], k as nat, cols) {
            Err(e) => Err(e),
            Ok(r) => match stations_from(lines, k + 1, cols) {
                Err(e) => Err(e),
                Ok(rs) => Ok(
                    match r {
                        Some(x) => seq![x] + rs,
                        None => rs,
                    },
                ),
            },
        }
    }
}

pub open spec fn then_stations(done: Seq<StationView>, rest: Result<Seq<StationView>, Seq<char>>) -> Result<
    Seq<StationView>,
    Seq<char>,
> {
    match rest {
        Ok(rs) => Ok(done + rs),
        Err(e) => Err(e),
    }
}

/// What road-section CSV text reads to: its stations, or the error text.
pub open spec fn spec_parse_road_section(content: Seq<char>) -> Result<Seq<StationView>, Seq<char>> {
    let lines = split_lines(content);
    if lines.len() == 0 {
        Err("Empty CSV"@)
    } else {
        let first = csv_fields(lines[0]);
        let header = has_station_header(first);
        let cols = if header {
            station_columns(first, first.len() as int)
        } else {
            default_columns()
        };
        match stations_from(
            lines,
            if header {
                1int
            } else {
                0int
            },
            cols,
        ) {
            Err(e) => Err(e),
            Ok(s) => if s.len() == 0 {
                Err("No valid station data found"@)
            } else {
                Ok(s)
            },
        }
    }
}

pub open spec fn stations_result(r: Result<Vec<StationData>, String>) -> Result<
    Seq<StationView>,
    Seq<char>,
> {
    match r {
        Ok(v) => Ok(station_views(v@)),
        Err(e) => Err(e@),
    }
}

fn is_station_header_field_exec(p: &[char]) -> (r: bool)
    ensures
        r == is_station_header_field(p@),
{
    if contains_exec(p, &chars_of("測点")) || contains_exec(p, &chars_of("延長")) || contains_exec(
        p,
        &chars_of("幅員"),
    ) {
        return true;
    }
    let lower = to_lowercase(string_of(p).as_str());
    let l = chars_of(lower.as_str());
    contains_exec(&l, &chars_of("name")) || contains_exec(&l, &chars_of("station"))
}

fn has_station_header_exec(first: &Vec<Vec<char>>) -> (r: bool)
    ensures
        r == has_station_header(views(first@)),
{
    let ghost fv = views(first@);
    let mut i: usize = 0;
    while i < first.len()
        invariant
            i <= first@.len(),
            fv == views(first@),
            forall|j: int| 0 <= j < i ==> !is_station_header_field(#[trigger] fv[j]),
        decreases first@.len() - i,
    {
        if is_station_header_field_exec(first[i].as_slice()) {
            assert(is_station_header_field(fv[i as int]));
            return true;
        }
        i += 1;
    }
    false
}

fn same(p: &[char], word: &str) -> (r: bool)
    ensures
        r == (p@ == word@),
{
    eq_chars(p, &chars_of(word))
}

/// The columns a header line names.
fn read_station_columns(first: &Vec<Vec<char>>) -> (r: (usize, usize, usize, usize))
    ensures
        ({
            let c = station_columns(views(first@), first@.len() as int);
            r.0 == c.name && r.1 == c.x && r.2 == c.wl && r.3 == c.wr
        }),
{
    let ghost fv = views(first@);
    let mut name_col: usize = 0;
    let mut x_col: usize = 1;
    let mut wl_col: usize = 2;
    let mut wr_col: usize = 3;
    let mut i: usize = 0;
    while i < first.len()
        invariant
            i <= first@.len(),
            fv == views(first@),
            ({
                let c = station_columns(fv, i as int);
                name_col == c.name && x_col == c.x && wl_col == c.wl && wr_col == c.wr
            }),
        decreases first@.len() - i,
    {
        let lower = to_lowercase(string_of(first[i].as_slice()).as_str());
        let p = chars_of(lower.as_str());
        assert(p@ == str_lowercase(fv[i as int]));
        if contains_exec(&p, &chars_of("測点")) || contains_exec(&p, &chars_of("name"))
            || contains_exec(&p, &chars_of("station")) {
            name_col = i;
        } else if contains_exec(&p, &chars_of("延長")) || contains_exec(&p, &chars_of("距離")) || same(
            &p,
            "x",
        ) {
            x_col = i;
        } else if contains_exec(&p, &chars_of("左")) || same(&p, "wl") {
            wl_col = i;
        } else if contains_exec(&p, &chars_of("右")) || same(&p, "wr") {
            wr_col = i;
        }
        i += 1;
    }
    (name_col, x_col, wl_col, wr_col)
}

pub open spec fn station_outcome(r: Result<Option<StationData>, String>) -> Result<
    Option<StationView>,
    Seq<char>,
> {
    match r {
        Ok(Some(s)) => Ok(Some(s@)),
        Ok(None) => Ok(None),
        Err(e) => Err(e@),
    }
}

/// The station of line `k` (see `station_row`).
fn read_station(line: &[char], k: usize, cols: (usize, usize, usize, usize)) -> (r: Result<
    Option<StationData>,
    String,
>)
    requires
        k < usize::MAX,
    ensures
        station_outcome(r) == station_row(
            line@,
            k as nat,
            StationColumns {
                name: cols.0 as int,
                x: cols.1 as int,
                wl: cols.2 as int,
                wr: cols.3 as int,
            },
        ),
{
    let t = trim_chars(line);
    if t.len() == 0 || t[0] == '#' {
        return Ok(None);
    }
    let p = fields_of(&t);
    if p.len() < 4 {
        return Ok(None);
    }
    let x = match NumText::from_chars(&field_of(&p, cols.1)) {
        Some(x) => x,
        None => {
            let mut m = String::from_str("Line ");
            push_decimal(&mut m, k + 1);
            m.append(": invalid x value");
            return Err(m);
        },
    };
    let zero = NumText::zero();
    let name = string_of(&field_of(&p, cols.0));
    let wl = NumText::from_chars_or(&field_of(&p, cols.2), &zero);
    let wr = NumText::from_chars_or(&field_of(&p, cols.3), &zero);
    Ok(Some(StationData { name, x, wl, wr }))
}

/// Reads road-section CSV text into stations. A first line with a field
/// that mentions 測点, 延長 or 幅員, or (lower-cased) `name` or `station`,
/// is a header naming the columns; otherwise the columns are name, x, wl,
/// wr. Blank lines, `#` lines and lines of fewer than 4 fields are
/// skipped; a distance that is not a number is an error naming the line.
pub fn parse_road_section_csv(content: &str) -> (r: Result<Vec<StationData>, String>)
    ensures
        stations_result(r) == spec_parse_road_section(content@),
{
    let lines = lines_of(&chars_of(content));
    let ghost ls = views(lines@);
    assert(ls == split_lines(content@));
    if lines.len() == 0 {
        return Err(String::from_str("Empty CSV"));
    }
    let first = fields_of(lines[0].as_slice());
    assert(ls[0] == lines@[0]@);
    let ghost fv = views(first@);
    let header = has_station_header_exec(&first);
    let cols = if header {
        read_station_columns(&first)
    } else {
        (0usize, 1usize, 2usize, 3usize)
    };
    let ghost sc = if header {
        station_columns(fv, fv.len() as int)
    } else {
        default_columns()
    };
    assert(sc == StationColumns {
        name: cols.0 as int,
        x: cols.1 as int,
        wl: cols.2 as int,
        wr: cols.3 as int,
    });
    let start: usize = if header {
        1
    } else {
        0
    };
    let mut stations: Vec<StationData> = Vec::new();
    let mut k: usize = start;
    assert(station_views(stations@) + Seq::<StationView>::empty() =~= Seq::<StationView>::empty());
    while k < lines.len()
        invariant
            start <= k <= lines@.len(),
            ls == views(lines@),
            ls == split_lines(content@),
            lines@.len() > 0,
            fv == csv_fields(ls[0]),
            start == (if has_station_header(fv) {
                1int
            } else {
                0int
            }),
            sc == (if has_station_header(fv) {
                station_columns(fv, fv.len() as int)
            } else {
                default_columns()
            }),
            sc == (StationColumns {
                name: cols.0 as int,
                x: cols.1 as int,
                wl: cols.2 as int,
                wr: cols.3 as int,
            }),
            stations_from(ls, start as int, sc) == then_stations(
                station_views(stations@),
                stations_from(ls, k as int, sc),
            ),
        decreases lines@.len() - k,
    {
        assert(ls[k as int] == lines@[k as int]@);
        let ghost before = station_views(stations@);
        let res = read_station(lines[k].as_slice(), k, cols);
        assert(station_outcome(res) == station_row(ls[k as int], k as nat, sc));
        match res {
            Err(e) => {
                assert(stations_from(ls, k as int, sc) == Err::<Seq<StationView>, Seq<char>>(e@));
                return Err(e);
            },
            Ok(None) => {},
            Ok(Some(s)) => {
                let ghost sv = s@;
                stations.push(s);
                assert(station_views(stations@) =~= before.push(sv));
                proof {
                    if let Ok(rs) = stations_from(ls, k + 1, sc) {
                        assert(before + (seq![sv] + rs) =~= before.push(sv) + rs);
                    }
                }
            },
        }
        k += 1;
    }
    let ghost all = station_views(stations@);
    assert(all + Seq::<StationView>::empty() =~= all);
    if stations.len() == 0 {
        return Err(String::from_str("No valid station data found"));
    }
    Ok(stations)
}

} // verus!

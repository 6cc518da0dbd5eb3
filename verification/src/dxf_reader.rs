//! DXF reader: the ENTITIES section of a DXF text parsed into entities.
//!
//! A DXF text is a sequence of group pairs, a code line followed by a value
//! line, each line trimmed. Within the ENTITIES section a pair with code `0`
//! starts an entity; the pairs up to the next code `0` set its attributes.

use vstd::prelude::*;

use crate::dxf::{
    DxfLine, DxfText, DxfCircle, DxfLwPolyline, LineView, TextView, CircleView, PolylineView,
    HorizontalAlignment, VerticalAlignment, default_line, default_text, default_circle,
    default_polyline, vertex_views,
};
use crate::number::{NumText, num_or, i32_or, zero_text, one_text, parse_i32_or};
use crate::text::{split_lines, trim, views, chars_of, lines_of, trimmed, is1, is2, eq_chars, string_of};

verus! {

/// A parsed DXF document: the entities of its ENTITIES section, by kind,
/// in the order they appear.
#[derive(Clone, Debug)]
pub struct DxfDocument {
    pub lines: Vec<DxfLine>,
    pub texts: Vec<DxfText>,
    pub circles: Vec<DxfCircle>,
    pub polylines: Vec<DxfLwPolyline>,
}

/// What a document holds.
pub struct DocView {
    pub lines: Seq<LineView>,
    pub texts: Seq<TextView>,
    pub circles: Seq<CircleView>,
    pub polylines: Seq<PolylineView>,
}

pub open spec fn empty_doc() -> DocView {
    DocView { lines: Seq::empty(), texts: Seq::empty(), circles: Seq::empty(), polylines: Seq::empty() }
}

impl View for DxfDocument {
    type V = DocView;

    open spec fn view(&self) -> DocView {
        DocView {
            lines: self.lines@.map_values(|e: DxfLine| e@),
            texts: self.texts@.map_values(|e: DxfText| e@),
            circles: self.circles@.map_values(|e: DxfCircle| e@),
            polylines: self.polylines@.map_values(|e: DxfLwPolyline| e@),
        }
    }
}

impl DxfDocument {
    /// A document without entities.
    pub fn new() -> (r: DxfDocument)
        ensures
            r@ == empty_doc(),
    {
        let r = DxfDocument { lines: Vec::new(), texts: Vec::new(), circles: Vec::new(), polylines: Vec::new() };
        assert(r@.lines =~= Seq::<LineView>::empty());
        assert(r@.texts =~= Seq::<TextView>::empty());
        assert(r@.circles =~= Seq::<CircleView>::empty());
        assert(r@.polylines =~= Seq::<PolylineView>::empty());
        r
    }
}

impl Default for DxfDocument {
    fn default() -> (r: DxfDocument)
        ensures
            r@ == empty_doc(),
    {
        DxfDocument::new()
    }
}

/// Why a DXF text could not be read.
#[derive(Debug)]
pub enum ReaderError {
    NoEntitiesSection,
    MalformedGroupCode(String),
}

impl ReaderError {
    /// The error's description.
    pub fn message(&self) -> (r: String)
        ensures
            self matches ReaderError::NoEntitiesSection ==> r@ == "No ENTITIES section found"@,
            self matches ReaderError::MalformedGroupCode(s) ==> r@ == "Malformed group code: "@ + s@,
    {
        match self {
            ReaderError::NoEntitiesSection => String::from_str("No ENTITIES section found"),
            ReaderError::MalformedGroupCode(s) => {
                let mut r = String::from_str("Malformed group code: ");
                r.append(s.as_str());
                r
            },
        }
    }
}

pub open spec fn word_section() -> Seq<char> {
    seq!['S', 'E', 'C', 'T', 'I', 'O', 'N']
}

pub open spec fn word_entities() -> Seq<char> {
    seq!['E', 'N', 'T', 'I', 'T', 'I', 'E', 'S']
}

pub open spec fn word_endsec() -> Seq<char> {
    seq!['E', 'N', 'D', 'S', 'E', 'C']
}

pub open spec fn word_line() -> Seq<char> {
    seq!['L', 'I', 'N', 'E']
}

pub open spec fn word_text() -> Seq<char> {
    seq!['T', 'E', 'X', 'T']
}

pub open spec fn word_circle() -> Seq<char> {
    seq!['C', 'I', 'R', 'C', 'L', 'E']
}

pub open spec fn word_lwpolyline() -> Seq<char> {
    seq!['L', 'W', 'P', 'O', 'L', 'Y', 'L', 'I', 'N', 'E']
}

/// The lines of a DXF text, each trimmed (`content.lines().map(str::trim)`).
pub open spec fn trimmed_lines(s: Seq<char>) -> Seq<Seq<char>> {
    split_lines(s).map_values(|l: Seq<char>| trim(l))
}

/// The index just after the first `0 / SECTION / 2 / <name>` at or after `i`.
pub open spec fn find_section_from(ls: Seq<Seq<char>>, name: Seq<char>, i: int) -> Option<int>
    decreases ls.len() - i,
{
    if 0 <= i && i + 3 < ls.len() {
        if ls[i] == seq!['0'] && ls[i + 1] == word_section() && ls[i + 2] == seq!['2'] && ls[i
            + 3] == name {
            Some(i + 4)
        } else {
            find_section_from(ls, name, i + 1)
        }
    } else {
        None
    }
}

/// Applies the group pairs from `i` on to the state `s`, up to the next
/// code `0` or until fewer than two lines are left; the final state and the
/// index where it stopped.
pub open spec fn scan_groups<S>(
    ls: Seq<Seq<char>>,
    i: int,
    s: S,
    step: spec_fn(S, Seq<char>, Seq<char>) -> S,
) -> (S, int)
    decreases ls.len() - i,
{
    if 0 <= i && i + 1 < ls.len() && ls[i] != seq!['0'] {
        scan_groups(ls, i + 2, step(s, ls[i], ls[i + 1]), step)
    } else {
        (s, i)
    }
}

pub proof fn lemma_scan_groups_bounds<S>(
    ls: Seq<Seq<char>>,
    i: int,
    s: S,
    step: spec_fn(S, Seq<char>, Seq<char>) -> S,
)
    requires
        0 <= i <= ls.len(),
    ensures
        i <= scan_groups(ls, i, s, step).1 <= ls.len(),
    decreases ls.len() - i,
{
    if i + 1 < ls.len() && ls[i] != seq!['0'] {
        lemma_scan_groups_bounds(ls, i + 2, step(s, ls[i], ls[i + 1]), step);
    }
}

/// One group pair applied to a LINE.
pub open spec fn line_step(e: LineView, code: Seq<char>, value: Seq<char>) -> LineView {
    if code == seq!['8'] {
        LineView { layer: value, ..e }
    } else if code == seq!['6', '2'] {
        LineView { color: i32_or(value, 7), ..e }
    } else if code == seq!['1', '0'] {
        LineView { x1: num_or(value, zero_text()), ..e }
    } else if code == seq!['2', '0'] {
        LineView { y1: num_or(value, zero_text()), ..e }
    } else if code == seq!['1', '1'] {
        LineView { x2: num_or(value, zero_text()), ..e }
    } else if code == seq!['2', '1'] {
        LineView { y2: num_or(value, zero_text()), ..e }
    } else {
        e
    }
}

pub open spec fn line_steps() -> spec_fn(LineView, Seq<char>, Seq<char>) -> LineView {
    |e: LineView, c: Seq<char>, v: Seq<char>| line_step(e, c, v)
}

/// Where a run of group pairs from `i` stops: an even number of lines on,
/// at the first pair whose code is `0`, or where fewer than two lines are
/// left; no pair before it has code `0`.
pub proof fn lemma_scan_groups_shape<S>(
    ls: Seq<Seq<char>>,
    i: int,
    s: S,
    step: spec_fn(S, Seq<char>, Seq<char>) -> S,
)
    requires
        0 <= i <= ls.len(),
    ensures
        ({
            let n = scan_groups(ls, i, s, step).1;
            &&& i <= n <= ls.len()
            &&& (n - i) % 2 == 0
            &&& n + 1 >= ls.len() || ls[n] == seq!['0']
            &&& forall|j: int| i <= j < n && (j - i) % 2 == 0 ==> ls[j] != seq!['0']
        }),
    decreases ls.len() - i,
{
    if i + 1 < ls.len() && ls[i] != seq!['0'] {
        lemma_scan_groups_shape(ls, i + 2, step(s, ls[i], ls[i + 1]), step);
        let n = scan_groups(ls, i, s, step).1;
        assert forall|j: int| i <= j < n && (j - i) % 2 == 0 implies ls[j] != seq!['0'] by {
            if j > i {
                assert((j - (i + 2)) % 2 == 0);
            }
        }
    }
}

/// The value of the last pair with group code `code` among the pairs at
/// `i`, `i + 2`, ... that end before line `n`.
pub open spec fn last_value(ls: Seq<Seq<char>>, i: int, n: int, code: Seq<char>) -> Option<
    Seq<char>,
>
    decreases n - i,
{
    if 0 <= i && i + 1 < n {
        match last_value(ls, i + 2, n, code) {
            Some(v) => Some(v),
            None => if ls[i] == code {
                Some(ls[i + 1])
            } else {
                None
            },
        }
    } else {
        None
    }
}

/// A value read from the last pair with `code`, or `default` where no pair
/// has it.
pub open spec fn last_or(
    ls: Seq<Seq<char>>,
    i: int,
    n: int,
    code: Seq<char>,
    read: spec_fn(Seq<char>) -> Seq<char>,
    default: Seq<char>,
) -> Seq<char> {
    match last_value(ls, i, n, code) {
        Some(v) => read(v),
        None => default,
    }
}

/// Reading a LINE's pairs from `i` on: the last pair with each of the codes
/// 8 (layer), 62 (color), 10, 20, 11, 21 (end points) in the run gives that
/// field, an unreadable color giving 7 and an unreadable coordinate `0`;
/// a field with no such pair keeps its value from `e`.
pub proof fn law_line_pairs_last_wins(ls: Seq<Seq<char>>, i: int, e: LineView)
    requires
        0 <= i <= ls.len(),
    ensures
        ({
            let (l, n) = scan_groups(ls, i, e, line_steps());
            let num = |v: Seq<char>| num_or(v, zero_text());
            &&& l.layer == last_or(ls, i, n, seq!['8'], |v: Seq<char>| v, e.layer)
            &&& l.color == match last_value(ls, i, n, seq!['6', '2']) {
                Some(v) => i32_or(v, 7),
                None => e.color,
            }
            &&& l.x1 == last_or(ls, i, n, seq!['1', '0'], num, e.x1)
            &&& l.y1 == last_or(ls, i, n, seq!['2', '0'], num, e.y1)
            &&& l.x2 == last_or(ls, i, n, seq!['1', '1'], num, e.x2)
            &&& l.y2 == last_or(ls, i, n, seq!['2', '1'], num, e.y2)
        }),
    decreases ls.len() - i,
{
    if i + 1 < ls.len() && ls[i] != seq!['0'] {
        let e1 = line_step(e, ls[i], ls[i + 1]);
        law_line_pairs_last_wins(ls, i + 2, e1);
        lemma_scan_groups_bounds(ls, i + 2, e1, line_steps());
        let n = scan_groups(ls, i, e, line_steps()).1;
        assert(n == scan_groups(ls, i + 2, e1, line_steps()).1);
        assert(seq!['8'].len() != seq!['6', '2'].len());
        assert(seq!['6', '2'][0] != seq!['1', '0'][0]);
        assert(seq!['6', '2'][0] != seq!['2', '0'][0]);
        assert(seq!['6', '2'][0] != seq!['1', '1'][0]);
        assert(seq!['6', '2'][0] != seq!['2', '1'][0]);
        assert(seq!['1', '0'][0] != seq!['2', '0'][0]);
        assert(seq!['1', '0'][1] != seq!['1', '1'][1]);
        assert(seq!['1', '0'][0] != seq!['2', '1'][0]);
        assert(seq!['2', '0'][0] != seq!['1', '1'][0]);
        assert(seq!['2', '0'][1] != seq!['2', '1'][1]);
        assert(seq!['1', '1'][0] != seq!['2', '1'][0]);
        assert(seq!['8'].len() != seq!['1', '0'].len());
        assert(seq!['8'].len() != seq!['2', '0'].len());
        assert(seq!['8'].len() != seq!['1', '1'].len());
        assert(seq!['8'].len() != seq!['2', '1'].len());
    }
}

/// Horizontal alignment from its group 72 number.
pub open spec fn align_h_of(n: i32) -> HorizontalAlignment {
    if n == 1 {
        HorizontalAlignment::Center
    } else if n == 2 {
        HorizontalAlignment::Right
    } else {
        HorizontalAlignment::Left
    }
}

/// Vertical alignment from its group 73 number.
pub open spec fn align_v_of(n: i32) -> VerticalAlignment {
    if n == 1 {
        VerticalAlignment::Bottom
    } else if n == 2 {
        VerticalAlignment::Middle
    } else if n == 3 {
        VerticalAlignment::Top
    } else {
        VerticalAlignment::Baseline
    }
}

/// One group pair applied to a TEXT.
pub open spec fn text_step(e: TextView, code: Seq<char>, value: Seq<char>) -> TextView {
    if code == seq!['8'] {
        TextView { layer: value, ..e }
    } else if code == seq!['6', '2'] {
        TextView { color: i32_or(value, 7), ..e }
    } else if code == seq!['1', '0'] {
        TextView { x: num_or(value, zero_text()), ..e }
    } else if code == seq!['2', '0'] {
        TextView { y: num_or(value, zero_text()), ..e }
    } else if code == seq!['4', '0'] {
        TextView { height: num_or(value, one_text()), ..e }
    } else if code == seq!['1'] {
        TextView { text: value, ..e }
    } else if code == seq!['5', '0'] {
        TextView { rotation: num_or(value, zero_text()), ..e }
    } else if code == seq!['7', '2'] {
        TextView { align_h: align_h_of(i32_or(value, 0)), ..e }
    } else if code == seq!['7', '3'] {
        TextView { align_v: align_v_of(i32_or(value, 0)), ..e }
    } else {
        e
    }
}

pub open spec fn text_steps() -> spec_fn(TextView, Seq<char>, Seq<char>) -> TextView {
    |e: TextView, c: Seq<char>, v: Seq<char>| text_step(e, c, v)
}

/// One group pair applied to a CIRCLE.
pub open spec fn circle_step(e: CircleView, code: Seq<char>, value: Seq<char>) -> CircleView {
    if code == seq!['8'] {
        CircleView { layer: value, ..e }
    } else if code == seq!['6', '2'] {
        CircleView { color: i32_or(value, 7), ..e }
    } else if code == seq!['1', '0'] {
        CircleView { x: num_or(value, zero_text()), ..e }
    } else if code == seq!['2', '0'] {
        CircleView { y: num_or(value, zero_text()), ..e }
    } else if code == seq!['4', '0'] {
        CircleView { radius: num_or(value, one_text()), ..e }
    } else {
        e
    }
}

pub open spec fn circle_steps() -> spec_fn(CircleView, Seq<char>, Seq<char>) -> CircleView {
    |e: CircleView, c: Seq<char>, v: Seq<char>| circle_step(e, c, v)
}

/// A LWPOLYLINE being read, with the x of a vertex whose y has not come yet.
pub type PolyState = (PolylineView, Option<Seq<char>>);

pub open spec fn push_vertex(p: PolylineView, x: Seq<char>, y: Seq<char>) -> PolylineView {
    PolylineView { vertices: p.vertices.push((x, y)), ..p }
}

/// One group pair applied to a LWPOLYLINE: code 10 starts a vertex (a
/// vertex still waiting for its y gets y = 0), code 20 completes it.
pub open spec fn poly_step(st: PolyState, code: Seq<char>, value: Seq<char>) -> PolyState {
    let (p, pending) = st;
    if code == seq!['8'] {
        (PolylineView { layer: value, ..p }, pending)
    } else if code == seq!['6', '2'] {
        (PolylineView { color: i32_or(value, 7), ..p }, pending)
    } else if code == seq!['7', '0'] {
        (PolylineView { closed: i32_or(value, 0) == 1, ..p }, pending)
    } else if code == seq!['1', '0'] {
        let p2 = match pending {
            Some(x) => push_vertex(p, x, zero_text()),
            None => p,
        };
        (p2, Some(num_or(value, zero_text())))
    } else if code == seq!['2', '0'] {
        match pending {
            Some(x) => (push_vertex(p, x, num_or(value, zero_text())), None),
            None => (p, None),
        }
    } else {
        (p, pending)
    }
}

pub open spec fn poly_steps() -> spec_fn(PolyState, Seq<char>, Seq<char>) -> PolyState {
    |st: PolyState, c: Seq<char>, v: Seq<char>| poly_step(st, c, v)
}

/// The polyline once its pairs are read: a vertex still waiting gets y = 0.
pub open spec fn poly_finish(st: PolyState) -> PolylineView {
    match st.1 {
        Some(x) => push_vertex(st.0, x, zero_text()),
        None => st.0,
    }
}

/// The entities read from index `i` on, added to `doc`: up to a
/// `0 / ENDSEC` pair or until fewer than two lines are left. An entity kind
/// other than LINE, TEXT, CIRCLE and LWPOLYLINE is skipped pair by pair.
pub open spec fn scan_entities(ls: Seq<Seq<char>>, i: int, doc: DocView) -> DocView
    decreases ls.len() - i,
{
    if 0 <= i && i + 1 < ls.len() {
        let code = ls[i];
        let value = ls[i + 1];
        if code == seq!['0'] && value == word_endsec() {
            doc
        } else if code == seq!['0'] && value == word_line() {
            let r = scan_groups(ls, i + 2, default_line(), line_steps());
            proof {
                lemma_scan_groups_bounds(ls, i + 2, default_line(), line_steps());
            }
            scan_entities(ls, r.1, DocView { lines: doc.lines.push(r.0), ..doc })
        } else if code == seq!['0'] && value == word_text() {
            let r = scan_groups(ls, i + 2, default_text(), text_steps());
            proof {
                lemma_scan_groups_bounds(ls, i + 2, default_text(), text_steps());
            }
            scan_entities(ls, r.1, DocView { texts: doc.texts.push(r.0), ..doc })
        } else if code == seq!['0'] && value == word_circle() {
            let r = scan_groups(ls, i + 2, default_circle(), circle_steps());
            proof {
                lemma_scan_groups_bounds(ls, i + 2, default_circle(), circle_steps());
            }
            scan_entities(ls, r.1, DocView { circles: doc.circles.push(r.0), ..doc })
        } else if code == seq!['0'] && value == word_lwpolyline() {
            let r = scan_groups(ls, i + 2, (default_polyline(), None), poly_steps());
            proof {
                lemma_scan_groups_bounds(ls, i + 2, (default_polyline(), None), poly_steps());
            }
            scan_entities(
                ls,
                r.1,
                DocView { polylines: doc.polylines.push(poly_finish(r.0)), ..doc },
            )
        } else {
            scan_entities(ls, i + 2, doc)
        }
    } else {
        doc
    }
}

/// What `parse_dxf` makes of a text.
pub open spec fn spec_parse_dxf(content: Seq<char>) -> Option<DocView> {
    let ls = trimmed_lines(content);
    match find_section_from(ls, word_entities(), 0) {
        Some(k) => Some(scan_entities(ls, k, empty_doc())),
        None => None,
    }
}

/// The lines of `content`, each trimmed.
pub fn trimmed_lines_of(content: &str) -> (r: Vec<Vec<char>>)
    ensures
        views(r@) == trimmed_lines(content@),
{
    let chars = chars_of(content);
    let raw = lines_of(&chars);
    let ghost sl = split_lines(content@);
    let mut out: Vec<Vec<char>> = Vec::new();
    let mut i: usize = 0;
    while i < raw.len()
        invariant
            i <= raw@.len(),
            views(raw@) == sl,
            views(out@) == sl.take(i as int).map_values(|l: Seq<char>| trim(l)),
        decreases raw@.len() - i,
    {
        let t = trimmed(&raw[i]);
        let ghost before = out@;
        out.push(t);
        assert(views(out@) =~= views(before).push(t@));
        assert(sl.take(i + 1).map_values(|l: Seq<char>| trim(l)) =~= sl.take(i as int).map_values(
            |l: Seq<char>| trim(l),
        ).push(trim(sl[i as int])));
        i += 1;
    }
    assert(sl.take(i as int) =~= sl);
    out
}

/// Index just after the first `0 / SECTION / 2 / <name>` header.
pub(crate) fn find_section_start(lines: &[Vec<char>], name: &[char]) -> (r: Option<usize>)
    ensures
        match r {
            Some(k) => find_section_from(views(lines@), name@, 0) == Some(k as int),
            None => find_section_from(views(lines@), name@, 0) is None,
        },
        r matches Some(k) ==> k <= lines@.len(),
{
    let ghost ls = views(lines@);
    proof {
        lemma_find_section_bound(ls, name@, 0);
    }
    let section = ['S', 'E', 'C', 'T', 'I', 'O', 'N'];
    assert(section@ =~= word_section());
    let mut i: usize = 0;
    while lines.len() >= 3 && i < lines.len() - 3
        invariant
            ls == views(lines@),
            section@ == word_section(),
            find_section_from(ls, name@, 0) == find_section_from(ls, name@, i as int),
        decreases lines@.len() - i,
    {
        if is1(&lines[i], '0') && eq_chars(&lines[i + 1], &section) && is1(&lines[i + 2], '2')
            && eq_chars(&lines[i + 3], name) {
            return Some(i + 4);
        }
        i += 1;
    }
    None
}

fn align_h_from(n: i32) -> (r: HorizontalAlignment)
    ensures
        r == align_h_of(n),
{
    if n == 1 {
        HorizontalAlignment::Center
    } else if n == 2 {
        HorizontalAlignment::Right
    } else {
        HorizontalAlignment::Left
    }
}

fn align_v_from(n: i32) -> (r: VerticalAlignment)
    ensures
        r == align_v_of(n),
{
    if n == 1 {
        VerticalAlignment::Bottom
    } else if n == 2 {
        VerticalAlignment::Middle
    } else if n == 3 {
        VerticalAlignment::Top
    } else {
        VerticalAlignment::Baseline
    }
}

/// Reads the pairs of a LINE from `start`; the line and where its pairs end.
fn parse_line_entity(lines: &[Vec<char>], start: usize) -> (r: (DxfLine, usize))
    requires
        start <= lines@.len(),
    ensures
        (r.0@, r.1 as int) == scan_groups(views(lines@), start as int, default_line(), line_steps()),
{
    let ghost ls = views(lines@);
    let mut line = DxfLine::default_entity();
    let zero = NumText::zero();
    let mut i = start;
    while i < lines.len() && i + 1 < lines.len() && !is1(&lines[i], '0')
        invariant
            start <= i <= lines@.len(),
            ls == views(lines@),
            zero@ == zero_text(),
            scan_groups(ls, start as int, default_line(), line_steps()) == scan_groups(
                ls,
                i as int,
                line@,
                line_steps(),
            ),
        decreases lines@.len() - i,
    {
        let code = &lines[i];
        let value = &lines[i + 1];
        let ghost before = line@;
        if is1(code, '8') {
            line.layer = string_of(value);
        } else if is2(code, '6', '2') {
            line.color = parse_i32_or(value, 7);
        } else if is2(code, '1', '0') {
            line.x1 = NumText::from_chars_or(value, &zero);
        } else if is2(code, '2', '0') {
            line.y1 = NumText::from_chars_or(value, &zero);
        } else if is2(code, '1', '1') {
            line.x2 = NumText::from_chars_or(value, &zero);
        } else if is2(code, '2', '1') {
            line.y2 = NumText::from_chars_or(value, &zero);
        }
        assert(line@ == line_step(before, ls[i as int], ls[i + 1]));
        i += 2;
    }
    (line, i)
}

/// Reads the pairs of a TEXT from `start`; the text and where its pairs end.
fn parse_text_entity(lines: &[Vec<char>], start: usize) -> (r: (DxfText, usize))
    requires
        start <= lines@.len(),
    ensures
        (r.0@, r.1 as int) == scan_groups(views(lines@), start as int, default_text(), text_steps()),
{
    let ghost ls = views(lines@);
    let mut text = DxfText::default_entity();
    let zero = NumText::zero();
    let one = NumText::one();
    let mut i = start;
    while i < lines.len() && i + 1 < lines.len() && !is1(&lines[i], '0')
        invariant
            start <= i <= lines@.len(),
            ls == views(lines@),
            zero@ == zero_text(),
            one@ == one_text(),
            scan_groups(ls, start as int, default_text(), text_steps()) == scan_groups(
                ls,
                i as int,
                text@,
                text_steps(),
            ),
        decreases lines@.len() - i,
    {
        let code = &lines[i];
        let value = &lines[i + 1];
        let ghost before = text@;
        if is1(code, '8') {
            text.layer = string_of(value);
        } else if is2(code, '6', '2') {
            text.color = parse_i32_or(value, 7);
        } else if is2(code, '1', '0') {
            text.x = NumText::from_chars_or(value, &zero);
        } else if is2(code, '2', '0') {
            text.y = NumText::from_chars_or(value, &zero);
        } else if is2(code, '4', '0') {
            text.height = NumText::from_chars_or(value, &one);
        } else if is1(code, '1') {
            text.text = string_of(value);
        } else if is2(code, '5', '0') {
            text.rotation = NumText::from_chars_or(value, &zero);
        } else if is2(code, '7', '2') {
            text.align_h = align_h_from(parse_i32_or(value, 0));
        } else if is2(code, '7', '3') {
            text.align_v = align_v_from(parse_i32_or(value, 0));
        }
        assert(text@ == text_step(before, ls[i as int], ls[i + 1]));
        i += 2;
    }
    (text, i)
}

/// Reads the pairs of a CIRCLE from `start`; the circle and where its pairs end.
fn parse_circle_entity(lines: &[Vec<char>], start: usize) -> (r: (DxfCircle, usize))
    requires
        start <= lines@.len(),
    ensures
        (r.0@, r.1 as int) == scan_groups(
            views(lines@),
            start as int,
            default_circle(),
            circle_steps(),
        ),
{
    let ghost ls = views(lines@);
    let mut circle = DxfCircle::default_entity();
    let zero = NumText::zero();
    let one = NumText::one();
    let mut i = start;
    while i < lines.len() && i + 1 < lines.len() && !is1(&lines[i], '0')
        invariant
            start <= i <= lines@.len(),
            ls == views(lines@),
            zero@ == zero_text(),
            one@ == one_text(),
            scan_groups(ls, start as int, default_circle(), circle_steps()) == scan_groups(
                ls,
                i as int,
                circle@,
                circle_steps(),
            ),
        decreases lines@.len() - i,
    {
        let code = &lines[i];
        let value = &lines[i + 1];
        let ghost before = circle@;
        if is1(code, '8') {
            circle.layer = string_of(value);
        } else if is2(code, '6', '2') {
            circle.color = parse_i32_or(value, 7);
        } else if is2(code, '1', '0') {
            circle.x = NumText::from_chars_or(value, &zero);
        } else if is2(code, '2', '0') {
            circle.y = NumText::from_chars_or(value, &zero);
        } else if is2(code, '4', '0') {
            circle.radius = NumText::from_chars_or(value, &one);
        }
        assert(circle@ == circle_step(before, ls[i as int], ls[i + 1]));
        i += 2;
    }
    (circle, i)
}

pub open spec fn pending_view(p: Option<NumText>) -> Option<Seq<char>> {
    match p {
        Some(x) => Some(x@),
        None => None,
    }
}

/// Reads the pairs of a LWPOLYLINE from `start`; the polyline and where its
/// pairs end.
fn parse_lwpolyline_entity(lines: &[Vec<char>], start: usize) -> (r: (DxfLwPolyline, usize))
    requires
        start <= lines@.len(),
    ensures
        ({
            let s = scan_groups(views(lines@), start as int, (default_polyline(), None), poly_steps());
            r.0@ == poly_finish(s.0) && r.1 == s.1
        }),
{
    let ghost ls = views(lines@);
    let mut poly = DxfLwPolyline::default_entity();
    let mut pending: Option<NumText> = None;
    let zero = NumText::zero();
    let mut i = start;
    while i < lines.len() && i + 1 < lines.len() && !is1(&lines[i], '0')
        invariant
            start <= i <= lines@.len(),
            ls == views(lines@),
            zero@ == zero_text(),
            scan_groups(ls, start as int, (default_polyline(), None), poly_steps()) == scan_groups(
                ls,
                i as int,
                (poly@, pending_view(pending)),
                poly_steps(),
            ),
        decreases lines@.len() - i,
    {
        let code = &lines[i];
        let value = &lines[i + 1];
        let ghost before = (poly@, pending_view(pending));
        if is1(code, '8') {
            poly.layer = string_of(value);
        } else if is2(code, '6', '2') {
            poly.color = parse_i32_or(value, 7);
        } else if is2(code, '7', '0') {
            poly.closed = parse_i32_or(value, 0) == 1;
        } else if is2(code, '1', '0') {
            let taken = pending.take();
            if let Some(x) = taken {
                let ghost vs = poly.vertices@;
                let y = zero.copy();
                let ghost xy = (x@, y@);
                poly.vertices.push((x, y));
                assert(vertex_views(poly.vertices@) =~= vertex_views(vs).push(xy));
            }
            pending = Some(NumText::from_chars_or(value, &zero));
        } else if is2(code, '2', '0') {
            let taken = pending.take();
            if let Some(x) = taken {
                let ghost vs = poly.vertices@;
                let y = NumText::from_chars_or(value, &zero);
                let ghost xy = (x@, y@);
                poly.vertices.push((x, y));
                assert(vertex_views(poly.vertices@) =~= vertex_views(vs).push(xy));
            }
        }
        assert((poly@, pending_view(pending)) == poly_step(before, ls[i as int], ls[i + 1]));
        i += 2;
    }
    let ghost st = (poly@, pending_view(pending));
    if let Some(x) = pending {
        let ghost vs = poly.vertices@;
        let y = zero.copy();
        let ghost xy = (x@, y@);
        poly.vertices.push((x, y));
        assert(vertex_views(poly.vertices@) =~= vertex_views(vs).push(xy));
    }
    assert(poly@ == poly_finish(st));
    (poly, i)
}

/// Parses a DXF text: the entities of its ENTITIES section, or
/// `NoEntitiesSection` when it has no `0 / SECTION / 2 / ENTITIES` header.
pub fn parse_dxf(content: &str) -> (r: Result<DxfDocument, ReaderError>)
    ensures
        match spec_parse_dxf(content@) {
            Some(d) => r matches Ok(doc) && doc@ == d,
            None => r matches Err(ReaderError::NoEntitiesSection),
        },
{
    let lines = trimmed_lines_of(content);
    let ghost ls = views(lines@);
    let entities = ['E', 'N', 'T', 'I', 'T', 'I', 'E', 'S'];
    assert(entities@ =~= word_entities());
    let start = match find_section_start(&lines, &entities) {
        Some(k) => k,
        None => return Err(ReaderError::NoEntitiesSection),
    };
    let endsec = ['E', 'N', 'D', 'S', 'E', 'C'];
    let line_w = ['L', 'I', 'N', 'E'];
    let text_w = ['T', 'E', 'X', 'T'];
    let circle_w = ['C', 'I', 'R', 'C', 'L', 'E'];
    let poly_w = ['L', 'W', 'P', 'O', 'L', 'Y', 'L', 'I', 'N', 'E'];
    assert(endsec@ =~= word_endsec());
    assert(line_w@ =~= word_line());
    assert(text_w@ =~= word_text());
    assert(circle_w@ =~= word_circle());
    assert(poly_w@ =~= word_lwpolyline());
    let mut doc = DxfDocument::new();
    let mut i = start;
    proof {
        assert(find_section_from(ls, word_entities(), 0) == Some(start as int));
        lemma_find_section_bound(ls, word_entities(), 0);
    }
    while i < lines.len() && i + 1 < lines.len()
        invariant
            ls == views(lines@),
            i <= lines@.len(),
            endsec@ == word_endsec(),
            line_w@ == word_line(),
            text_w@ == word_text(),
            circle_w@ == word_circle(),
            poly_w@ == word_lwpolyline(),
            scan_entities(ls, start as int, empty_doc()) == scan_entities(ls, i as int, doc@),
        ensures
            scan_entities(ls, start as int, empty_doc()) == doc@,
        decreases lines@.len() - i,
    {
        let code = &lines[i];
        let value = &lines[i + 1];
        let ghost before = doc@;
        if is1(code, '0') && eq_chars(value, &endsec) {
            break;
        }
        if is1(code, '0') && eq_chars(value, &line_w) {
            let (e, next) = parse_line_entity(&lines, i + 2);
            proof {
                lemma_scan_groups_bounds(ls, i + 2, default_line(), line_steps());
            }
            doc.lines.push(e);
            assert(doc@.lines =~= before.lines.push(e@));
            assert(doc@ == DocView { lines: before.lines.push(e@), ..before });
            i = next;
        } else if is1(code, '0') && eq_chars(value, &text_w) {
            let (e, next) = parse_text_entity(&lines, i + 2);
            proof {
                lemma_scan_groups_bounds(ls, i + 2, default_text(), text_steps());
            }
            doc.texts.push(e);
            assert(doc@.texts =~= before.texts.push(e@));
            assert(doc@ == DocView { texts: before.texts.push(e@), ..before });
            i = next;
        } else if is1(code, '0') && eq_chars(value, &circle_w) {
            let (e, next) = parse_circle_entity(&lines, i + 2);
            proof {
                lemma_scan_groups_bounds(ls, i + 2, default_circle(), circle_steps());
            }
            doc.circles.push(e);
            assert(doc@.circles =~= before.circles.push(e@));
            assert(doc@ == DocView { circles: before.circles.push(e@), ..before });
            i = next;
        } else if is1(code, '0') && eq_chars(value, &poly_w) {
            let (e, next) = parse_lwpolyline_entity(&lines, i + 2);
            proof {
                lemma_scan_groups_bounds(ls, i + 2, (default_polyline(), None), poly_steps());
            }
            doc.polylines.push(e);
            assert(doc@.polylines =~= before.polylines.push(e@));
            assert(doc@ == DocView { polylines: before.polylines.push(e@), ..before });
            i = next;
        } else {
            i += 2;
        }
    }
    Ok(doc)
}

pub proof fn lemma_find_section_bound(ls: Seq<Seq<char>>, name: Seq<char>, i: int)
    requires
        0 <= i,
    ensures
        find_section_from(ls, name, i) matches Some(k) ==> i + 4 <= k <= ls.len(),
    decreases ls.len() - i,
{
    if i + 3 < ls.len() {
        lemma_find_section_bound(ls, name, i + 1);
    }
}

} // verus!

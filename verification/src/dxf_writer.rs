//! DXF text output: an ENTITIES section holding LINE, TEXT, CIRCLE and
//! LWPOLYLINE entities, each with its own handle (group code 5, numbered
//! from 1 in hexadecimal), one group code or value per line, numbers
//! written as their literals; and the proofs that reading it back gives the
//! drawing and that normalizing it gives one entity text per entity.

use vstd::prelude::*;

use crate::crosswalk::line_views;
use crate::dxf::{
    CircleView, DxfCircle, DxfLine, DxfLwPolyline, DxfText, HorizontalAlignment, LineView,
    PolylineView, TextView, VerticalAlignment,
};
use crate::dxf::{default_circle, default_line, default_polyline, default_text};
use crate::dxf_reader::{
    align_h_of, align_v_of, circle_step, circle_steps, empty_doc, find_section_from, line_step,
    line_steps, poly_finish, poly_step, poly_steps, push_vertex, scan_entities, scan_groups,
    spec_parse_dxf, text_step, text_steps, trimmed_lines, word_circle, word_endsec, word_entities,
    word_line, word_lwpolyline, word_section, word_text, DocView,
};
use crate::comparator::{block_steps, entity_blocks, lemma_sort_texts, sort_texts, spec_entity_blocks};
use crate::fields::{decimal, digit_char, hex_text, lemma_hex_text, push_decimal, push_hex};
use crate::number::{
    all_digits, ascii_lower, ascii_lower_seq, digit_value, digits_value, is_decimal, is_digit,
    i32_or, is_exponent, is_float_literal, is_sign, lead_mantissa, spec_parse_i32,
};
use crate::text::{
    chars_of, first_nl, is_ws, lemma_first_nl_at, push_char, split_lines, strip_cr, trim, trim_end,
    trim_start, views,
};

verus! {

broadcast use vstd::string::group_string_axioms;

pub open spec fn word_eof() -> Seq<char> {
    seq!['E', 'O', 'F']
}

/// The lines joined, each followed by a line feed.
pub open spec fn join_lines(ls: Seq<Seq<char>>) -> Seq<char>
    decreases ls.len(),
{
    if ls.len() == 0 {
        Seq::empty()
    } else {
        ls[0] + seq!['\n'] + join_lines(ls.drop_first())
    }
}

pub proof fn lemma_join_concat(a: Seq<Seq<char>>, b: Seq<Seq<char>>)
    ensures
        join_lines(a + b) == join_lines(a) + join_lines(b),
    decreases a.len(),
{
    if a.len() == 0 {
        assert(a + b =~= b);
        assert(Seq::<char>::empty() + join_lines(b) =~= join_lines(b));
    } else {
        assert((a + b).drop_first() =~= a.drop_first() + b);
        lemma_join_concat(a.drop_first(), b);
        assert((a + b)[0] == a[0]);
        assert(a[0] + seq!['\n'] + (join_lines(a.drop_first()) + join_lines(b)) =~= a[0] + seq![
            '\n',
        ] + join_lines(a.drop_first()) + join_lines(b));
    }
}

/// The decimal numeral of an `i32`, with `-` when negative.
pub open spec fn int_text(c: i32) -> Seq<char> {
    if c < 0 {
        seq!['-'] + decimal((-c) as nat)
    } else {
        decimal(c as nat)
    }
}

/// The group 72 number of a horizontal alignment.
pub open spec fn align_h_text(a: HorizontalAlignment) -> Seq<char> {
    match a {
        HorizontalAlignment::Left => seq!['0'],
        HorizontalAlignment::Center => seq!['1'],
        HorizontalAlignment::Right => seq!['2'],
    }
}

/// The group 73 number of a vertical alignment.
pub open spec fn align_v_text(a: VerticalAlignment) -> Seq<char> {
    match a {
        VerticalAlignment::Baseline => seq!['0'],
        VerticalAlignment::Bottom => seq!['1'],
        VerticalAlignment::Middle => seq!['2'],
        VerticalAlignment::Top => seq!['3'],
    }
}

/// The lines of a LINE entity with handle `h`: type, handle (5), layer
/// (8), color (62), start (10, 20) and end (11, 21).
pub open spec fn line_entity_lines(l: LineView, h: nat) -> Seq<Seq<char>> {
    seq![
        seq!['0'],
        word_line(),
        seq!['5'],
        hex_text(h),
        seq!['8'],
        l.layer,
        seq!['6', '2'],
        int_text(l.color),
        seq!['1', '0'],
        l.x1,
        seq!['2', '0'],
        l.y1,
        seq!['1', '1'],
        l.x2,
        seq!['2', '1'],
        l.y2,
    ]
}

/// The lines of a TEXT entity with handle `h`: type, handle (5), layer
/// (8), color (62), position (10, 20), height (40), text (1), rotation (50)
/// and alignments (72, 73).
pub open spec fn text_entity_lines(t: TextView, h: nat) -> Seq<Seq<char>> {
    seq![
        seq!['0'],
        word_text(),
        seq!['5'],
        hex_text(h),
        seq!['8'],
        t.layer,
        seq!['6', '2'],
        int_text(t.color),
        seq!['1', '0'],
        t.x,
        seq!['2', '0'],
        t.y,
        seq!['4', '0'],
        t.height,
        seq!['1'],
        t.text,
        seq!['5', '0'],
        t.rotation,
        seq!['7', '2'],
        align_h_text(t.align_h),
        seq!['7', '3'],
        align_v_text(t.align_v),
    ]
}

/// The lines of `ls`, the first with handle `h`, the next with `h + 1`, ...
pub open spec fn lines_block(ls: Seq<LineView>, h: nat) -> Seq<Seq<char>>
    decreases ls.len(),
{
    if ls.len() == 0 {
        Seq::empty()
    } else {
        line_entity_lines(ls[0], h) + lines_block(ls.drop_first(), h + 1)
    }
}

/// The texts of `ts`, the first with handle `h`, the next with `h + 1`, ...
pub open spec fn texts_block(ts: Seq<TextView>, h: nat) -> Seq<Seq<char>>
    decreases ts.len(),
{
    if ts.len() == 0 {
        Seq::empty()
    } else {
        text_entity_lines(ts[0], h) + texts_block(ts.drop_first(), h + 1)
    }
}

pub open spec fn section_head() -> Seq<Seq<char>> {
    seq![seq!['0'], word_section(), seq!['2'], word_entities()]
}

pub open spec fn section_tail() -> Seq<Seq<char>> {
    seq![seq!['0'], word_endsec(), seq!['0'], word_eof()]
}

/// The lines of a CIRCLE entity with handle `h`: type, handle (5), layer
/// (8), color (62), center (10, 20) and radius (40).
pub open spec fn circle_entity_lines(c: CircleView, h: nat) -> Seq<Seq<char>> {
    seq![
        seq!['0'],
        word_circle(),
        seq!['5'],
        hex_text(h),
        seq!['8'],
        c.layer,
        seq!['6', '2'],
        int_text(c.color),
        seq!['1', '0'],
        c.x,
        seq!['2', '0'],
        c.y,
        seq!['4', '0'],
        c.radius,
    ]
}

/// The vertex pairs (10, 20) of a polyline.
pub open spec fn vertex_lines(vs: Seq<(Seq<char>, Seq<char>)>) -> Seq<Seq<char>>
    decreases vs.len(),
{
    if vs.len() == 0 {
        Seq::empty()
    } else {
        seq![seq!['1', '0'], vs[0].0, seq!['2', '0'], vs[0].1] + vertex_lines(vs.drop_first())
    }
}

/// The group 70 flag of a polyline: 1 when closed.
pub open spec fn closed_text(closed: bool) -> Seq<char> {
    if closed {
        seq!['1']
    } else {
        seq!['0']
    }
}

/// The lines of a LWPOLYLINE entity with handle `h`: type, handle (5),
/// layer (8), color (62), vertex count (90), closed flag (70), then its
/// vertices.
pub open spec fn poly_entity_lines(p: PolylineView, h: nat) -> Seq<Seq<char>> {
    seq![
        seq!['0'],
        word_lwpolyline(),
        seq!['5'],
        hex_text(h),
        seq!['8'],
        p.layer,
        seq!['6', '2'],
        int_text(p.color),
        seq!['9', '0'],
        decimal(p.vertices.len()),
        seq!['7', '0'],
        closed_text(p.closed),
    ] + vertex_lines(p.vertices)
}

/// The circles of `cs`, the first with handle `h`, the next with `h + 1`, ...
pub open spec fn circles_block(cs: Seq<CircleView>, h: nat) -> Seq<Seq<char>>
    decreases cs.len(),
{
    if cs.len() == 0 {
        Seq::empty()
    } else {
        circle_entity_lines(cs[0], h) + circles_block(cs.drop_first(), h + 1)
    }
}

/// The polylines of `ps`, the first with handle `h`, the next with `h + 1`, ...
pub open spec fn polys_block(ps: Seq<PolylineView>, h: nat) -> Seq<Seq<char>>
    decreases ps.len(),
{
    if ps.len() == 0 {
        Seq::empty()
    } else {
        poly_entity_lines(ps[0], h) + polys_block(ps.drop_first(), h + 1)
    }
}

/// The lines of the DXF text of a drawing: the ENTITIES section header,
/// the lines, texts, circles and polylines in this order, each entity with
/// its handle (numbered from 1 in that order, written in hexadecimal), the
/// section end and `EOF`.
pub open spec fn dxf_lines(
    lines: Seq<LineView>,
    texts: Seq<TextView>,
    circles: Seq<CircleView>,
    polys: Seq<PolylineView>,
) -> Seq<Seq<char>> {
    section_head() + lines_block(lines, 1) + texts_block(texts, lines.len() + 1) + circles_block(
        circles,
        lines.len() + texts.len() + 1,
    ) + polys_block(polys, lines.len() + texts.len() + circles.len() + 1) + section_tail()
}

/// The DXF text of a drawing.
pub open spec fn dxf_text(
    lines: Seq<LineView>,
    texts: Seq<TextView>,
    circles: Seq<CircleView>,
    polys: Seq<PolylineView>,
) -> Seq<char> {
    join_lines(dxf_lines(lines, texts, circles, polys))
}

pub open spec fn text_views(v: Seq<DxfText>) -> Seq<TextView> {
    v.map_values(|t: DxfText| t@)
}

pub open spec fn circle_views(v: Seq<DxfCircle>) -> Seq<CircleView> {
    v.map_values(|c: DxfCircle| c@)
}

pub open spec fn poly_views(v: Seq<DxfLwPolyline>) -> Seq<PolylineView> {
    v.map_values(|p: DxfLwPolyline| p@)
}

/// Appends each line followed by a line feed.
fn push_lines(out: &mut String, ls: &Vec<Vec<char>>)
    ensures
        final(out)@ == old(out)@ + join_lines(views(ls@)),
{
    let ghost all = views(ls@);
    let ghost start = out@;
    let mut i: usize = 0;
    assert(all.skip(0) =~= all);
    assert(start + join_lines(all) =~= start + join_lines(all));
    while i < ls.len()
        invariant
            i <= ls@.len(),
            all == views(ls@),
            out@ + join_lines(all.skip(i as int)) == start + join_lines(all),
        decreases ls@.len() - i,
    {
        let ghost before = out@;
        let line = &ls[i];
        let mut j: usize = 0;
        while j < line.len()
            invariant
                j <= line@.len(),
                out@ == before + line@.take(j as int),
            decreases line@.len() - j,
        {
            push_char(out, line[j]);
            assert(line@.take(j + 1) =~= line@.take(j as int).push(line@[j as int]));
            j += 1;
        }
        push_char(out, '\n');
        assert(line@.take(j as int) =~= line@);
        let ghost rest = all.skip(i as int);
        assert(rest[0] == line@);
        assert(rest.drop_first() =~= all.skip(i + 1));
        assert(out@ + join_lines(all.skip(i + 1)) =~= before + (rest[0] + seq!['\n'] + join_lines(
            rest.drop_first(),
        )));
        i += 1;
    }
    assert(all.skip(i as int) =~= Seq::<Seq<char>>::empty());
    assert(out@ + Seq::<char>::empty() =~= out@);
}

/// The numeral of an `i32`.
fn int_chars(c: i32) -> (r: Vec<char>)
    ensures
        r@ == int_text(c),
{
    let mut s = String::new();
    if c < 0 {
        push_char(&mut s, '-');
        let m: i64 = -(c as i64);
        assert(m <= 0x8000_0000);
        push_decimal(&mut s, m as usize);
        assert(s@ =~= seq!['-'] + decimal((-c) as nat));
    } else {
        push_decimal(&mut s, c as usize);
        assert(s@ =~= decimal(c as nat));
    }
    chars_of(s.as_str())
}

fn align_h_chars(a: HorizontalAlignment) -> (r: Vec<char>)
    ensures
        r@ == align_h_text(a),
{
    let r = match a {
        HorizontalAlignment::Left => vec!['0'],
        HorizontalAlignment::Center => vec!['1'],
        HorizontalAlignment::Right => vec!['2'],
    };
    assert(r@ =~= align_h_text(a));
    r
}

fn align_v_chars(a: VerticalAlignment) -> (r: Vec<char>)
    ensures
        r@ == align_v_text(a),
{
    let r = match a {
        VerticalAlignment::Baseline => vec!['0'],
        VerticalAlignment::Bottom => vec!['1'],
        VerticalAlignment::Middle => vec!['2'],
        VerticalAlignment::Top => vec!['3'],
    };
    assert(r@ =~= align_v_text(a));
    r
}

/// The hexadecimal numeral of a handle.
fn hex_chars(h: u128) -> (r: Vec<char>)
    ensures
        r@ == hex_text(h as nat),
{
    let mut s = String::new();
    push_hex(&mut s, h);
    assert(s@ =~= hex_text(h as nat));
    chars_of(s.as_str())
}

fn line_entity(l: &DxfLine, h: u128) -> (r: Vec<Vec<char>>)
    ensures
        views(r@) == line_entity_lines(l@, h as nat),
{
    let r = vec![
        vec!['0'],
        vec!['L', 'I', 'N', 'E'],
        vec!['5'],
        hex_chars(h),
        vec!['8'],
        chars_of(l.layer.as_str()),
        vec!['6', '2'],
        int_chars(l.color),
        vec!['1', '0'],
        chars_of(l.x1.as_str()),
        vec!['2', '0'],
        chars_of(l.y1.as_str()),
        vec!['1', '1'],
        chars_of(l.x2.as_str()),
        vec!['2', '1'],
        chars_of(l.y2.as_str()),
    ];
    assert(r@[0]@ =~= seq!['0']);
    assert(r@[1]@ =~= word_line());
    assert(r@[2]@ =~= seq!['5']);
    assert(r@[4]@ =~= seq!['8']);
    assert(r@[6]@ =~= seq!['6', '2']);
    assert(r@[8]@ =~= seq!['1', '0']);
    assert(r@[10]@ =~= seq!['2', '0']);
    assert(r@[12]@ =~= seq!['1', '1']);
    assert(r@[14]@ =~= seq!['2', '1']);
    assert(views(r@) =~= line_entity_lines(l@, h as nat));
    r
}

fn text_entity(t: &DxfText, h: u128) -> (r: Vec<Vec<char>>)
    ensures
        views(r@) == text_entity_lines(t@, h as nat),
{
    let r = vec![
        vec!['0'],
        vec!['T', 'E', 'X', 'T'],
        vec!['5'],
        hex_chars(h),
        vec!['8'],
        chars_of(t.layer.as_str()),
        vec!['6', '2'],
        int_chars(t.color),
        vec!['1', '0'],
        chars_of(t.x.as_str()),
        vec!['2', '0'],
        chars_of(t.y.as_str()),
        vec!['4', '0'],
        chars_of(t.height.as_str()),
        vec!['1'],
        chars_of(t.text.as_str()),
        vec!['5', '0'],
        chars_of(t.rotation.as_str()),
        vec!['7', '2'],
        align_h_chars(t.align_h),
        vec!['7', '3'],
        align_v_chars(t.align_v),
    ];
    assert(r@[0]@ =~= seq!['0']);
    assert(r@[1]@ =~= word_text());
    assert(r@[2]@ =~= seq!['5']);
    assert(r@[4]@ =~= seq!['8']);
    assert(r@[6]@ =~= seq!['6', '2']);
    assert(r@[8]@ =~= seq!['1', '0']);
    assert(r@[10]@ =~= seq!['2', '0']);
    assert(r@[12]@ =~= seq!['4', '0']);
    assert(r@[14]@ =~= seq!['1']);
    assert(r@[16]@ =~= seq!['5', '0']);
    assert(r@[18]@ =~= seq!['7', '2']);
    assert(r@[20]@ =~= seq!['7', '3']);
    assert(views(r@) =~= text_entity_lines(t@, h as nat));
    r
}

fn circle_entity(c: &DxfCircle, h: u128) -> (r: Vec<Vec<char>>)
    ensures
        views(r@) == circle_entity_lines(c@, h as nat),
{
    let r = vec![
        vec!['0'],
        vec!['C', 'I', 'R', 'C', 'L', 'E'],
        vec!['5'],
        hex_chars(h),
        vec!['8'],
        chars_of(c.layer.as_str()),
        vec!['6', '2'],
        int_chars(c.color),
        vec!['1', '0'],
        chars_of(c.x.as_str()),
        vec!['2', '0'],
        chars_of(c.y.as_str()),
        vec!['4', '0'],
        chars_of(c.radius.as_str()),
    ];
    assert(r@[0]@ =~= seq!['0']);
    assert(r@[1]@ =~= word_circle());
    assert(r@[2]@ =~= seq!['5']);
    assert(r@[4]@ =~= seq!['8']);
    assert(r@[6]@ =~= seq!['6', '2']);
    assert(r@[8]@ =~= seq!['1', '0']);
    assert(r@[10]@ =~= seq!['2', '0']);
    assert(r@[12]@ =~= seq!['4', '0']);
    assert(views(r@) =~= circle_entity_lines(c@, h as nat));
    r
}

fn poly_entity(p: &DxfLwPolyline, h: u128) -> (r: Vec<Vec<char>>)
    ensures
        views(r@) == poly_entity_lines(p@, h as nat),
{
    let mut count = String::new();
    push_decimal(&mut count, p.vertices.len());
    assert(count@ =~= decimal(p@.vertices.len()));
    let flag = if p.closed {
        vec!['1']
    } else {
        vec!['0']
    };
    assert(flag@ =~= closed_text(p.closed));
    let mut r = vec![
        vec!['0'],
        vec!['L', 'W', 'P', 'O', 'L', 'Y', 'L', 'I', 'N', 'E'],
        vec!['5'],
        hex_chars(h),
        vec!['8'],
        chars_of(p.layer.as_str()),
        vec!['6', '2'],
        int_chars(p.color),
        vec!['9', '0'],
        chars_of(count.as_str()),
        vec!['7', '0'],
        flag,
    ];
    assert(r@[0]@ =~= seq!['0']);
    assert(r@[1]@ =~= word_lwpolyline());
    assert(r@[2]@ =~= seq!['5']);
    assert(r@[4]@ =~= seq!['8']);
    assert(r@[6]@ =~= seq!['6', '2']);
    assert(r@[8]@ =~= seq!['9', '0']);
    assert(r@[10]@ =~= seq!['7', '0']);
    let ghost head = views(r@);
    let ghost vs = p@.vertices;
    assert(vs.skip(0) =~= vs);
    let mut i: usize = 0;
    while i < p.vertices.len()
        invariant
            i <= p.vertices@.len(),
            vs == p@.vertices,
            vs.len() == p.vertices@.len(),
            views(r@) + vertex_lines(vs.skip(i as int)) == head + vertex_lines(vs),
        decreases p.vertices@.len() - i,
    {
        let ghost before = views(r@);
        let (x, y) = &p.vertices[i];
        r.push(vec!['1', '0']);
        r.push(chars_of(x.as_str()));
        r.push(vec!['2', '0']);
        r.push(chars_of(y.as_str()));
        let ghost rest = vs.skip(i as int);
        assert(rest[0] == vs[i as int]);
        assert(vs[i as int] == (x@, y@));
        assert(rest.drop_first() =~= vs.skip(i + 1));
        assert(views(r@) =~= before + seq![seq!['1', '0'], x@, seq!['2', '0'], y@]);
        assert(views(r@) + vertex_lines(vs.skip(i + 1)) =~= before + vertex_lines(rest));
        i += 1;
    }
    assert(vs.skip(i as int) =~= Seq::<(Seq<char>, Seq<char>)>::empty());
    assert(views(r@) + Seq::<Seq<char>>::empty() =~= views(r@));
    assert(head =~= seq![
        seq!['0'],
        word_lwpolyline(),
        seq!['5'],
        hex_text(h as nat),
        seq!['8'],
        p@.layer,
        seq!['6', '2'],
        int_text(p@.color),
        seq!['9', '0'],
        decimal(p@.vertices.len()),
        seq!['7', '0'],
        closed_text(p@.closed),
    ]);
    r
}

/// Writes drawings as DXF text.
pub struct DxfWriter {}

impl DxfWriter {
    pub fn new() -> (r: DxfWriter) {
        DxfWriter {  }
    }

    /// The DXF text of `lines` and `texts`: an ENTITIES section with the
    /// lines, then the texts, in order, each with its handle, followed by
    /// `EOF`.
    pub fn write(&self, lines: &[DxfLine], texts: &[DxfText]) -> (r: String)
        ensures
            r@ == dxf_text(line_views(lines@), text_views(texts@), Seq::empty(), Seq::empty()),
    {
        let circles: Vec<DxfCircle> = Vec::new();
        let polys: Vec<DxfLwPolyline> = Vec::new();
        let r = self.write_all(lines, texts, circles.as_slice(), polys.as_slice());
        assert(circle_views(circles@) =~= Seq::<CircleView>::empty());
        assert(poly_views(polys@) =~= Seq::<PolylineView>::empty());
        r
    }

    /// The DXF text of a drawing: an ENTITIES section with the lines,
    /// texts, circles and polylines, each kind in order, the entities
    /// handled 1, 2, 3, ... in that order, followed by `EOF`.
    pub fn write_all(
        &self,
        lines: &[DxfLine],
        texts: &[DxfText],
        circles: &[DxfCircle],
        polys: &[DxfLwPolyline],
    ) -> (r: String)
        ensures
            r@ == dxf_text(
                line_views(lines@),
                text_views(texts@),
                circle_views(circles@),
                poly_views(polys@),
            ),
    {
        let ghost lv = line_views(lines@);
        let ghost tv = text_views(texts@);
        let ghost cv = circle_views(circles@);
        let ghost pv = poly_views(polys@);
        let ghost all = dxf_lines(lv, tv, cv, pv);
        let ghost ht: nat = lv.len() + 1;
        let ghost hc: nat = lv.len() + tv.len() + 1;
        let ghost hp: nat = lv.len() + tv.len() + cv.len() + 1;
        let ghost tb = texts_block(tv, ht);
        let ghost cb = circles_block(cv, hc);
        let ghost pb = polys_block(pv, hp);
        let mut out = String::new();
        let head = vec![
            vec!['0'],
            vec!['S', 'E', 'C', 'T', 'I', 'O', 'N'],
            vec!['2'],
            vec!['E', 'N', 'T', 'I', 'T', 'I', 'E', 'S'],
        ];
        assert(head@[0]@ =~= seq!['0']);
        assert(head@[1]@ =~= word_section());
        assert(head@[2]@ =~= seq!['2']);
        assert(head@[3]@ =~= word_entities());
        assert(views(head@) =~= section_head());
        push_lines(&mut out, &head);
        proof {
            let rest = lines_block(lv, 1) + tb + cb + pb + section_tail();
            lemma_join_concat(section_head(), rest);
            assert(all =~= section_head() + rest);
            assert(lv.skip(0) =~= lv);
            assert(Seq::<char>::empty() + join_lines(section_head()) =~= join_lines(section_head()));
        }
        let mut h: u128 = 1;
        let mut i: usize = 0;
        while i < lines.len()
            invariant
                i <= lines@.len(),
                h == i + 1,
                lv == line_views(lines@),
                all == dxf_lines(lv, tv, cv, pv),
                tb == texts_block(tv, ht),
                cb == circles_block(cv, hc),
                pb == polys_block(pv, hp),
                out@ + join_lines(lines_block(lv.skip(i as int), h as nat) + tb + cb + pb
                    + section_tail()) == join_lines(all),
            decreases lines@.len() - i,
        {
            let e = line_entity(&lines[i], h);
            push_lines(&mut out, &e);
            proof {
                let rest = lv.skip(i as int);
                assert(rest[0] == lines@[i as int]@);
                assert(rest.drop_first() =~= lv.skip(i + 1));
                let tail = tb + cb + pb + section_tail();
                let next = lines_block(lv.skip(i + 1), (h + 1) as nat);
                assert(lines_block(rest, h as nat) + tb + cb + pb + section_tail()
                    =~= line_entity_lines(rest[0], h as nat) + (next + tail));
                lemma_join_concat(line_entity_lines(rest[0], h as nat), next + tail);
                assert(next + tb + cb + pb + section_tail() =~= next + tail);
            }
            h = h + 1;
            i += 1;
        }
        proof {
            assert(lv.skip(i as int) =~= Seq::<LineView>::empty());
            assert(lines_block(lv.skip(i as int), h as nat) =~= Seq::<Seq<char>>::empty());
            assert(tv.skip(0) =~= tv);
            assert(lines_block(lv.skip(i as int), h as nat) + tb + cb + pb + section_tail()
                =~= texts_block(tv.skip(0), ht) + cb + pb + section_tail());
        }
        let mut k: usize = 0;
        while k < texts.len()
            invariant
                k <= texts@.len(),
                h == lv.len() + k + 1,
                lv.len() <= usize::MAX,
                tv == text_views(texts@),
                all == dxf_lines(lv, tv, cv, pv),
                cb == circles_block(cv, hc),
                pb == polys_block(pv, hp),
                out@ + join_lines(texts_block(tv.skip(k as int), h as nat) + cb + pb
                    + section_tail()) == join_lines(all),
            decreases texts@.len() - k,
        {
            let e = text_entity(&texts[k], h);
            push_lines(&mut out, &e);
            proof {
                let rest = tv.skip(k as int);
                assert(rest[0] == texts@[k as int]@);
                assert(rest.drop_first() =~= tv.skip(k + 1));
                let tail = cb + pb + section_tail();
                let next = texts_block(tv.skip(k + 1), (h + 1) as nat);
                assert(texts_block(rest, h as nat) + cb + pb + section_tail() =~= text_entity_lines(
                    rest[0],
                    h as nat,
                ) + (next + tail));
                lemma_join_concat(text_entity_lines(rest[0], h as nat), next + tail);
                assert(next + cb + pb + section_tail() =~= next + tail);
            }
            h = h + 1;
            k += 1;
        }
        proof {
            assert(tv.skip(k as int) =~= Seq::<TextView>::empty());
            assert(texts_block(tv.skip(k as int), h as nat) =~= Seq::<Seq<char>>::empty());
            assert(cv.skip(0) =~= cv);
            assert(texts_block(tv.skip(k as int), h as nat) + cb + pb + section_tail()
                =~= circles_block(cv.skip(0), hc) + pb + section_tail());
        }
        let mut c: usize = 0;
        while c < circles.len()
            invariant
                c <= circles@.len(),
                h == lv.len() + tv.len() + c + 1,
                lv.len() <= usize::MAX,
                tv.len() <= usize::MAX,
                cv == circle_views(circles@),
                all == dxf_lines(lv, tv, cv, pv),
                pb == polys_block(pv, hp),
                out@ + join_lines(circles_block(cv.skip(c as int), h as nat) + pb + section_tail())
                    == join_lines(all),
            decreases circles@.len() - c,
        {
            let e = circle_entity(&circles[c], h);
            push_lines(&mut out, &e);
            proof {
                let rest = cv.skip(c as int);
                assert(rest[0] == circles@[c as int]@);
                assert(rest.drop_first() =~= cv.skip(c + 1));
                let tail = pb + section_tail();
                let next = circles_block(cv.skip(c + 1), (h + 1) as nat);
                assert(circles_block(rest, h as nat) + pb + section_tail() =~= circle_entity_lines(
                    rest[0],
                    h as nat,
                ) + (next + tail));
                lemma_join_concat(circle_entity_lines(rest[0], h as nat), next + tail);
                assert(next + pb + section_tail() =~= next + tail);
            }
            h = h + 1;
            c += 1;
        }
        proof {
            assert(cv.skip(c as int) =~= Seq::<CircleView>::empty());
            assert(circles_block(cv.skip(c as int), h as nat) =~= Seq::<Seq<char>>::empty());
            assert(pv.skip(0) =~= pv);
            assert(circles_block(cv.skip(c as int), h as nat) + pb + section_tail() =~= polys_block(
                pv.skip(0),
                hp,
            ) + section_tail());
        }
        let mut q: usize = 0;
        while q < polys.len()
            invariant
                q <= polys@.len(),
                h == lv.len() + tv.len() + cv.len() + q + 1,
                lv.len() <= usize::MAX,
                tv.len() <= usize::MAX,
                cv.len() <= usize::MAX,
                pv == poly_views(polys@),
                all == dxf_lines(lv, tv, cv, pv),
                out@ + join_lines(polys_block(pv.skip(q as int), h as nat) + section_tail())
                    == join_lines(all),
            decreases polys@.len() - q,
        {
            let e = poly_entity(&polys[q], h);
            push_lines(&mut out, &e);
            proof {
                let rest = pv.skip(q as int);
                assert(rest[0] == polys@[q as int]@);
                assert(rest.drop_first() =~= pv.skip(q + 1));
                let next = polys_block(pv.skip(q + 1), (h + 1) as nat);
                assert(polys_block(rest, h as nat) + section_tail() =~= poly_entity_lines(
                    rest[0],
                    h as nat,
                ) + (next + section_tail()));
                lemma_join_concat(poly_entity_lines(rest[0], h as nat), next + section_tail());
            }
            h = h + 1;
            q += 1;
        }
        let tail = vec![vec!['0'], vec!['E', 'N', 'D', 'S', 'E', 'C'], vec!['0'], vec!['E', 'O', 'F']];
        assert(tail@[0]@ =~= seq!['0']);
        assert(tail@[1]@ =~= word_endsec());
        assert(tail@[2]@ =~= seq!['0']);
        assert(tail@[3]@ =~= word_eof());
        assert(views(tail@) =~= section_tail());
        proof {
            assert(pv.skip(q as int) =~= Seq::<PolylineView>::empty());
            assert(polys_block(pv.skip(q as int), h as nat) =~= Seq::<Seq<char>>::empty());
            assert(polys_block(pv.skip(q as int), h as nat) + section_tail() =~= section_tail());
        }
        push_lines(&mut out, &tail);
        out
    }
}

/// A character that is not whitespace.
pub open spec fn no_ws(s: Seq<char>) -> bool {
    forall|i: int| 0 <= i < s.len() ==> !is_ws(#[trigger] s[i])
}

proof fn lemma_ascii_lower_keeps_ws(c: char)
    requires
        is_ws(c),
    ensures
        ascii_lower(c) == c,
{
}

proof fn lemma_lead_mantissa_chars(s: Seq<char>, k: int)
    requires
        0 <= k < lead_mantissa(s),
    ensures
        is_digit(s[k]) || s[k] == '.',
    decreases s.len(),
{
    lemma_lead_mantissa_bound(s);
    if k > 0 {
        lemma_lead_mantissa_chars(s.drop_first(), k - 1);
        assert(s[k] == s.drop_first()[k - 1]);
    }
}

proof fn lemma_lead_mantissa_bound(s: Seq<char>)
    ensures
        lead_mantissa(s) <= s.len(),
    decreases s.len(),
{
    if s.len() > 0 {
        lemma_lead_mantissa_bound(s.drop_first());
    }
}

proof fn lemma_decimal_no_ws(b: Seq<char>)
    requires
        is_decimal(b),
    ensures
        no_ws(b),
{
    let m = lead_mantissa(b) as int;
    lemma_lead_mantissa_bound(b);
    assert forall|i: int| 0 <= i < b.len() implies !is_ws(#[trigger] b[i]) by {
        if i < m {
            lemma_lead_mantissa_chars(b, i);
        } else {
            let t = b.skip(m);
            assert(is_exponent(t));
            let j = i - m;
            assert(t[j] == b[i]);
            if j == 0 {
                if is_ws(t[0]) {
                    lemma_ascii_lower_keeps_ws(t[0]);
                }
            } else if j == 1 {
                if !is_sign(t[1]) {
                    assert(t.skip(1)[0] == t[1]);
                }
            } else if is_sign(t[1]) {
                assert(t.skip(2)[j - 2] == t[j]);
            } else {
                assert(t.skip(1)[j - 1] == t[j]);
            }
        }
    }
}

/// A number literal holds no whitespace.
pub proof fn lemma_float_literal_no_ws(s: Seq<char>)
    requires
        is_float_literal(s),
    ensures
        no_ws(s),
{
    let signed = s.len() > 0 && is_sign(s[0]);
    let body = if signed {
        s.drop_first()
    } else {
        s
    };
    let low = ascii_lower_seq(body);
    assert forall|i: int| 0 <= i < body.len() implies !is_ws(#[trigger] body[i]) by {
        if is_decimal(body) {
            lemma_decimal_no_ws(body);
        } else if is_ws(body[i]) {
            lemma_ascii_lower_keeps_ws(body[i]);
            assert(low[i] == body[i]);
            let c = low[i];
            assert(low.len() == body.len());
            if low == seq!['i', 'n', 'f'] {
                assert(i == 0 || i == 1 || i == 2);
                assert(c == 'i' || c == 'n' || c == 'f');
            } else if low == seq!['n', 'a', 'n'] {
                assert(i == 0 || i == 1 || i == 2);
                assert(c == 'n' || c == 'a');
            } else {
                assert(low == seq!['i', 'n', 'f', 'i', 'n', 'i', 't', 'y']);
                assert(c == 'i' || c == 'n' || c == 'f' || c == 't' || c == 'y');
            }
            assert(97 <= (c as u32) <= 122);
        }
    }
    assert forall|i: int| 0 <= i < s.len() implies !is_ws(#[trigger] s[i]) by {
        if signed && i > 0 {
            assert(s[i] == body[i - 1]);
        } else if !signed {
            assert(s[i] == body[i]);
        }
    }
}

/// A value the reader gives back as written: one line, not beginning or
/// ending with whitespace (the reader trims each line).
pub open spec fn is_plain_value(v: Seq<char>) -> bool {
    &&& forall|i: int| 0 <= i < v.len() ==> v[i] != '\n'
    &&& v.len() > 0 ==> !is_ws(v[0]) && !is_ws(v.last())
}

proof fn lemma_no_ws_plain(v: Seq<char>)
    requires
        no_ws(v),
    ensures
        is_plain_value(v),
{
    assert forall|i: int| 0 <= i < v.len() implies v[i] != '\n' by {
        assert(!is_ws(v[i]));
    }
    if v.len() > 0 {
        assert(!is_ws(v[0]));
        assert(!is_ws(v[v.len() - 1]));
    }
}

proof fn lemma_plain_trim(v: Seq<char>)
    requires
        is_plain_value(v),
    ensures
        trim(v) == v,
{
    assert(trim_start(v) == v);
    assert(trim_end(v) == v);
}

proof fn lemma_digit_char(d: int)
    requires
        0 <= d <= 9,
    ensures
        is_digit(digit_char(d)),
        digit_value(digit_char(d)) == d,
{
}

proof fn lemma_decimal(n: nat)
    ensures
        decimal(n).len() > 0,
        all_digits(decimal(n)),
        digits_value(decimal(n)) == n,
        is_digit(decimal(n)[0]),
    decreases n,
{
    let s = decimal(n);
    if n < 10 {
        lemma_digit_char(n as int);
        assert(s.drop_last() =~= Seq::<char>::empty());
        assert(digits_value(s) == 10 * digits_value(s.drop_last()) + digit_value(s.last()));
    } else {
        lemma_decimal(n / 10);
        lemma_digit_char((n % 10) as int);
        let h = decimal(n / 10);
        assert(s.drop_last() =~= h);
        assert(s.last() == digit_char((n % 10) as int));
        assert(digits_value(s) == 10 * digits_value(h) + digit_value(s.last()));
        assert(n == 10 * (n / 10) + n % 10);
        assert(s[0] == h[0]);
        assert forall|i: int| 0 <= i < s.len() implies is_digit(#[trigger] s[i]) by {
            if i < h.len() {
                assert(s[i] == h[i]);
            }
        }
    }
}

/// `int_text` reads back as the same `i32`.
pub proof fn lemma_int_text(c: i32)
    ensures
        spec_parse_i32(int_text(c)) == Some(c),
{
    let s = int_text(c);
    if c < 0 {
        let m = (-c) as nat;
        lemma_decimal(m);
        assert(s[0] == '-');
        assert(s.drop_first() =~= decimal(m));
    } else {
        lemma_decimal(c as nat);
        assert(!is_sign(s[0]));
    }
}

proof fn lemma_int_text_plain(c: i32)
    ensures
        is_plain_value(int_text(c)),
{
    let s = int_text(c);
    let m: nat = if c < 0 {
        (-c) as nat
    } else {
        c as nat
    };
    lemma_decimal(m);
    let d = decimal(m);
    assert forall|i: int| 0 <= i < s.len() implies !is_ws(#[trigger] s[i]) by {
        if c < 0 {
            if i > 0 {
                assert(s[i] == d[i - 1]);
                assert(is_digit(d[i - 1]));
            }
        } else {
            assert(is_digit(d[i]));
        }
    }
    lemma_no_ws_plain(s);
}

proof fn lemma_split_join(ls: Seq<Seq<char>>)
    requires
        forall|k: int| 0 <= k < ls.len() ==> is_plain_value(#[trigger] ls[k]),
    ensures
        split_lines(join_lines(ls)) == ls,
    decreases ls.len(),
{
    if ls.len() == 0 {
        assert(join_lines(ls) =~= Seq::<char>::empty());
        assert(first_nl(Seq::<char>::empty()) is None);
        assert(ls =~= Seq::<Seq<char>>::empty());
    } else {
        let l = ls[0];
        let rest = ls.drop_first();
        assert forall|k: int| 0 <= k < rest.len() implies is_plain_value(#[trigger] rest[k]) by {
            assert(rest[k] == ls[k + 1]);
        }
        lemma_split_join(rest);
        let t = join_lines(ls);
        assert(t == l + seq!['\n'] + join_lines(rest));
        let k = l.len() as int;
        assert(t[k] == '\n');
        assert forall|j: int| 0 <= j < k implies t[j] != '\n' by {
            assert(t[j] == l[j]);
        }
        lemma_first_nl_at(t, k);
        assert(t.take(k) =~= l);
        assert(t.skip(k + 1) =~= join_lines(rest));
        assert(strip_cr(l) == l) by {
            if l.len() > 0 {
                assert(!is_ws(l.last()));
            }
        }
        assert(split_lines(t) == seq![strip_cr(t.take(k))] + split_lines(t.skip(k + 1)));
        assert(ls =~= seq![l] + rest);
    }
}

/// A LINE whose layer the reader gives back as written.
pub open spec fn writable_line(l: LineView) -> bool {
    &&& is_plain_value(l.layer)
    &&& is_float_literal(l.x1)
    &&& is_float_literal(l.y1)
    &&& is_float_literal(l.x2)
    &&& is_float_literal(l.y2)
}

/// A TEXT whose layer and text the reader gives back as written.
pub open spec fn writable_text(t: TextView) -> bool {
    &&& is_plain_value(t.layer)
    &&& is_plain_value(t.text)
    &&& is_float_literal(t.x)
    &&& is_float_literal(t.y)
    &&& is_float_literal(t.height)
    &&& is_float_literal(t.rotation)
}


proof fn lemma_align_texts()
    ensures
        forall|a: HorizontalAlignment| align_h_of(i32_or(#[trigger] align_h_text(a), 0)) == a,
        forall|a: VerticalAlignment| align_v_of(i32_or(#[trigger] align_v_text(a), 0)) == a,
{
    lemma_int_text(0);
    lemma_int_text(1);
    lemma_int_text(2);
    lemma_int_text(3);
    assert(int_text(0) =~= seq!['0']);
    assert(int_text(1) =~= seq!['1']);
    assert(int_text(2) =~= seq!['2']);
    assert(int_text(3) =~= seq!['3']);
}




proof fn lemma_literal_plain(w: Seq<char>)
    requires
        w.len() > 0,
        forall|i: int| 0 <= i < w.len() ==> 0x30 <= (#[trigger] w[i] as u32) <= 0x5A,
    ensures
        is_plain_value(w),
{
    assert forall|i: int| 0 <= i < w.len() implies !is_ws(#[trigger] w[i]) by {
        assert(0x30 <= (w[i] as u32) <= 0x5A);
    }
    lemma_no_ws_plain(w);
}

proof fn lemma_number_plain(s: Seq<char>)
    requires
        is_float_literal(s),
    ensures
        is_plain_value(s),
{
    lemma_float_literal_no_ws(s);
    lemma_no_ws_plain(s);
}

proof fn lemma_codes_plain()
    ensures
        is_plain_value(seq!['0']),
        is_plain_value(seq!['1']),
        is_plain_value(seq!['2']),
        is_plain_value(seq!['3']),
        is_plain_value(seq!['5']),
        is_plain_value(seq!['8']),
        is_plain_value(seq!['6', '2']),
        is_plain_value(seq!['1', '0']),
        is_plain_value(seq!['2', '0']),
        is_plain_value(seq!['1', '1']),
        is_plain_value(seq!['2', '1']),
        is_plain_value(seq!['4', '0']),
        is_plain_value(seq!['5', '0']),
        is_plain_value(seq!['7', '2']),
        is_plain_value(seq!['7', '3']),
        is_plain_value(word_line()),
        is_plain_value(word_text()),
        is_plain_value(word_section()),
        is_plain_value(word_entities()),
        is_plain_value(word_endsec()),
        is_plain_value(word_eof()),
{
    lemma_literal_plain(seq!['0']);
    lemma_literal_plain(seq!['1']);
    lemma_literal_plain(seq!['2']);
    lemma_literal_plain(seq!['3']);
    lemma_literal_plain(seq!['5']);
    lemma_literal_plain(seq!['8']);
    lemma_literal_plain(seq!['6', '2']);
    lemma_literal_plain(seq!['1', '0']);
    lemma_literal_plain(seq!['2', '0']);
    lemma_literal_plain(seq!['1', '1']);
    lemma_literal_plain(seq!['2', '1']);
    lemma_literal_plain(seq!['4', '0']);
    lemma_literal_plain(seq!['5', '0']);
    lemma_literal_plain(seq!['7', '2']);
    lemma_literal_plain(seq!['7', '3']);
    lemma_literal_plain(word_line());
    lemma_literal_plain(word_text());
    lemma_literal_plain(word_section());
    lemma_literal_plain(word_entities());
    lemma_literal_plain(word_endsec());
    lemma_literal_plain(word_eof());
}





/// A CIRCLE whose layer the reader gives back as written.
pub open spec fn writable_circle(c: CircleView) -> bool {
    &&& is_plain_value(c.layer)
    &&& is_float_literal(c.x)
    &&& is_float_literal(c.y)
    &&& is_float_literal(c.radius)
}

/// A LWPOLYLINE whose layer the reader gives back as written.
pub open spec fn writable_poly(p: PolylineView) -> bool {
    &&& is_plain_value(p.layer)
    &&& forall|k: int|
        0 <= k < p.vertices.len() ==> is_float_literal((#[trigger] p.vertices[k]).0)
            && is_float_literal(p.vertices[k].1)
}


proof fn lemma_vertex_lines_len(vs: Seq<(Seq<char>, Seq<char>)>)
    ensures
        vertex_lines(vs).len() == 4 * vs.len(),
    decreases vs.len(),
{
    if vs.len() > 0 {
        lemma_vertex_lines_len(vs.drop_first());
    }
}

proof fn lemma_poly_codes()
    ensures
        seq!['1', '0'] != seq!['0'],
        seq!['2', '0'] != seq!['0'],
        seq!['1', '0'] != seq!['8'],
        seq!['2', '0'] != seq!['8'],
        seq!['1', '0'] != seq!['6', '2'],
        seq!['2', '0'] != seq!['6', '2'],
        seq!['1', '0'] != seq!['7', '0'],
        seq!['2', '0'] != seq!['7', '0'],
        seq!['2', '0'] != seq!['1', '0'],
        seq!['9', '0'] != seq!['0'],
        seq!['9', '0'] != seq!['8'],
        seq!['9', '0'] != seq!['6', '2'],
        seq!['9', '0'] != seq!['7', '0'],
        seq!['9', '0'] != seq!['1', '0'],
        seq!['9', '0'] != seq!['2', '0'],
        seq!['7', '0'] != seq!['0'],
        seq!['7', '0'] != seq!['8'],
        seq!['7', '0'] != seq!['6', '2'],
        seq!['8'] != seq!['0'],
        seq!['6', '2'] != seq!['0'],
        seq!['6', '2'] != seq!['8'],
        seq!['5'] != seq!['0'],
        seq!['5'] != seq!['8'],
        seq!['5'] != seq!['6', '2'],
        seq!['5'] != seq!['7', '0'],
        seq!['5'] != seq!['1', '0'],
        seq!['5'] != seq!['2', '0'],
{
    assert(seq!['5'][0] != seq!['0'][0]);
    assert(seq!['5'][0] != seq!['8'][0]);
    assert(seq!['5'].len() != seq!['6', '2'].len());
    assert(seq!['5'].len() != seq!['7', '0'].len());
    assert(seq!['5'].len() != seq!['1', '0'].len());
    assert(seq!['5'].len() != seq!['2', '0'].len());
    assert(seq!['1', '0'].len() != seq!['0'].len());
    assert(seq!['2', '0'].len() != seq!['0'].len());
    assert(seq!['1', '0'].len() != seq!['8'].len());
    assert(seq!['2', '0'].len() != seq!['8'].len());
    assert(seq!['1', '0'][0] != seq!['6', '2'][0]);
    assert(seq!['2', '0'][0] != seq!['6', '2'][0]);
    assert(seq!['1', '0'][0] != seq!['7', '0'][0]);
    assert(seq!['2', '0'][0] != seq!['7', '0'][0]);
    assert(seq!['2', '0'][0] != seq!['1', '0'][0]);
    assert(seq!['9', '0'].len() != seq!['0'].len());
    assert(seq!['9', '0'].len() != seq!['8'].len());
    assert(seq!['9', '0'][0] != seq!['6', '2'][0]);
    assert(seq!['9', '0'][0] != seq!['7', '0'][0]);
    assert(seq!['9', '0'][0] != seq!['1', '0'][0]);
    assert(seq!['9', '0'][0] != seq!['2', '0'][0]);
    assert(seq!['7', '0'].len() != seq!['0'].len());
    assert(seq!['7', '0'].len() != seq!['8'].len());
    assert(seq!['7', '0'][0] != seq!['6', '2'][0]);
    assert(seq!['8'][0] != seq!['0'][0]);
    assert(seq!['6', '2'].len() != seq!['0'].len());
    assert(seq!['6', '2'].len() != seq!['8'].len());
}

proof fn lemma_scan_vertices(
    ls: Seq<Seq<char>>,
    q: int,
    vs: Seq<(Seq<char>, Seq<char>)>,
    p: PolylineView,
)
    requires
        0 <= q,
        q + 4 * vs.len() < ls.len(),
        ls.subrange(q, q + 4 * vs.len()) == vertex_lines(vs),
        ls[q + 4 * vs.len()] == seq!['0'],
        forall|k: int|
            0 <= k < vs.len() ==> is_float_literal((#[trigger] vs[k]).0) && is_float_literal(
                vs[k].1,
            ),
    ensures
        scan_groups(ls, q, (p, None::<Seq<char>>), poly_steps()) == (
            (PolylineView { vertices: p.vertices + vs, ..p }, None::<Seq<char>>),
            q + 4 * vs.len(),
        ),
    decreases vs.len(),
{
    let f = poly_steps();
    lemma_poly_codes();
    if vs.len() == 0 {
        assert(p.vertices + vs =~= p.vertices);
        assert(scan_groups(ls, q, (p, None::<Seq<char>>), f) == ((p, None::<Seq<char>>), q));
    } else {
        let n = vs.len() as int;
        let v = vs[0];
        let rest = vs.drop_first();
        lemma_vertex_lines_len(rest);
        let b = vertex_lines(vs);
        let e = seq![seq!['1', '0'], v.0, seq!['2', '0'], v.1];
        assert(b == e + vertex_lines(rest));
        assert forall|j: int| 0 <= j < 4 implies ls[q + j] == e[j] by {
            assert(ls.subrange(q, q + 4 * n)[j] == b[j]);
        }
        assert(ls.subrange(q + 4, q + 4 * n) =~= vertex_lines(rest)) by {
            assert forall|j: int| 0 <= j < 4 * (n - 1) implies ls.subrange(q + 4, q + 4 * n)[j]
                == vertex_lines(rest)[j] by {
                assert(ls.subrange(q, q + 4 * n)[j + 4] == b[j + 4]);
            }
        }
        assert(is_float_literal(v.0) && is_float_literal(v.1));
        let st1 = poly_step((p, None::<Seq<char>>), seq!['1', '0'], v.0);
        assert(st1 == (p, Some(v.0)));
        let p2 = push_vertex(p, v.0, v.1);
        let st2 = poly_step(st1, seq!['2', '0'], v.1);
        assert(st2 == (p2, None::<Seq<char>>));
        assert(scan_groups(ls, q, (p, None::<Seq<char>>), f) == scan_groups(ls, q + 2, st1, f));
        assert(scan_groups(ls, q + 2, st1, f) == scan_groups(ls, q + 4, st2, f));
        assert forall|k: int| 0 <= k < rest.len() implies is_float_literal((#[trigger] rest[k]).0)
            && is_float_literal(rest[k].1) by {
            assert(rest[k] == vs[k + 1]);
        }
        lemma_scan_vertices(ls, q + 4, rest, p2);
        assert(p2.vertices + rest =~= p.vertices + vs);
    }
}




proof fn lemma_vertex_lines_plain(vs: Seq<(Seq<char>, Seq<char>)>)
    requires
        forall|k: int|
            0 <= k < vs.len() ==> is_float_literal((#[trigger] vs[k]).0) && is_float_literal(
                vs[k].1,
            ),
    ensures
        forall|k: int| 0 <= k < vertex_lines(vs).len() ==> is_plain_value(#[trigger] vertex_lines(vs)[k]),
    decreases vs.len(),
{
    if vs.len() > 0 {
        let rest = vs.drop_first();
        assert forall|k: int| 0 <= k < rest.len() implies is_float_literal((#[trigger] rest[k]).0)
            && is_float_literal(rest[k].1) by {
            assert(rest[k] == vs[k + 1]);
        }
        lemma_vertex_lines_plain(rest);
        assert(is_float_literal(vs[0].0) && is_float_literal(vs[0].1));
        lemma_number_plain(vs[0].0);
        lemma_number_plain(vs[0].1);
        lemma_codes_plain();
        let e = seq![seq!['1', '0'], vs[0].0, seq!['2', '0'], vs[0].1];
        let b = vertex_lines(vs);
        assert(b == e + vertex_lines(rest));
        assert forall|k: int| 0 <= k < b.len() implies is_plain_value(#[trigger] b[k]) by {
            if k < 4 {
                assert(b[k] == e[k]);
                assert(k == 0 || k == 1 || k == 2 || k == 3);
            } else {
                assert(b[k] == vertex_lines(rest)[k - 4]);
            }
        }
    }
}





proof fn lemma_hex_plain(h: nat)
    ensures
        is_plain_value(hex_text(h)),
{
    lemma_hex_text(h);
    lemma_literal_plain(hex_text(h));
}

/// Facts on the group codes of entity bodies: none is `0` or `5`, and they
/// differ from one another.
proof fn lemma_handle_code()
    ensures
        seq!['5'] != seq!['0'],
        seq!['5'] != seq!['8'],
        seq!['5'] != seq!['1'],
        seq!['5'] != seq!['6', '2'],
        seq!['5'] != seq!['1', '0'],
        seq!['5'] != seq!['2', '0'],
        seq!['5'] != seq!['1', '1'],
        seq!['5'] != seq!['2', '1'],
        seq!['5'] != seq!['4', '0'],
        seq!['5'] != seq!['5', '0'],
        seq!['5'] != seq!['7', '2'],
        seq!['5'] != seq!['7', '3'],
{
    assert(seq!['5'][0] != seq!['0'][0]);
    assert(seq!['5'][0] != seq!['8'][0]);
    assert(seq!['5'][0] != seq!['1'][0]);
    assert(seq!['5'].len() != seq!['6', '2'].len());
    assert(seq!['5'].len() != seq!['1', '0'].len());
    assert(seq!['5'].len() != seq!['2', '0'].len());
    assert(seq!['5'].len() != seq!['1', '1'].len());
    assert(seq!['5'].len() != seq!['2', '1'].len());
    assert(seq!['5'].len() != seq!['4', '0'].len());
    assert(seq!['5'].len() != seq!['5', '0'].len());
    assert(seq!['5'].len() != seq!['7', '2'].len());
    assert(seq!['5'].len() != seq!['7', '3'].len());
}

proof fn lemma_scan_line_entity(ls: Seq<Seq<char>>, p: int, l: LineView, h: nat)
    requires
        0 <= p,
        p + 17 <= ls.len(),
        ls.subrange(p, p + 16) == line_entity_lines(l, h),
        ls[p + 16] == seq!['0'],
        writable_line(l),
    ensures
        scan_groups(ls, p + 2, default_line(), line_steps()) == (l, p + 16),
{
    let e = line_entity_lines(l, h);
    assert forall|j: int| 0 <= j < 16 implies ls[p + j] == e[j] by {
        assert(ls.subrange(p, p + 16)[j] == ls[p + j]);
    }
    lemma_int_text(l.color);
    lemma_handle_code();
    let f = line_steps();
    let s0 = default_line();
    assert(line_step(s0, seq!['5'], hex_text(h)) == s0);
    let s1 = line_step(s0, seq!['8'], l.layer);
    let s2 = line_step(s1, seq!['6', '2'], int_text(l.color));
    let s3 = line_step(s2, seq!['1', '0'], l.x1);
    let s4 = line_step(s3, seq!['2', '0'], l.y1);
    let s5 = line_step(s4, seq!['1', '1'], l.x2);
    let s6 = line_step(s5, seq!['2', '1'], l.y2);
    assert(seq!['6', '2'][0] != seq!['1', '0'][0]);
    assert(seq!['2', '0'][0] != seq!['1', '0'][0]);
    assert(seq!['2', '0'][0] != seq!['6', '2'][0]);
    assert(seq!['1', '1'][1] != seq!['1', '0'][1]);
    assert(seq!['1', '1'][0] != seq!['2', '0'][0]);
    assert(seq!['1', '1'][0] != seq!['6', '2'][0]);
    assert(seq!['2', '1'][1] != seq!['2', '0'][1]);
    assert(seq!['2', '1'][0] != seq!['1', '1'][0]);
    assert(seq!['2', '1'][0] != seq!['1', '0'][0]);
    assert(seq!['2', '1'][0] != seq!['6', '2'][0]);
    assert(seq!['8'][0] != seq!['0'][0]);
    assert(seq!['6', '2'][0] != seq!['0'][0]);
    assert(s1 == LineView { layer: l.layer, ..s0 });
    assert(s2 == LineView { color: l.color, ..s1 });
    assert(s3 == LineView { x1: l.x1, ..s2 });
    assert(s4 == LineView { y1: l.y1, ..s3 });
    assert(s5 == LineView { x2: l.x2, ..s4 });
    assert(s6 == LineView { y2: l.y2, ..s5 });
    assert(s6 == l);
    assert(scan_groups(ls, p + 16, s6, f) == (s6, p + 16));
    assert(scan_groups(ls, p + 14, s5, f) == scan_groups(ls, p + 16, s6, f));
    assert(scan_groups(ls, p + 12, s4, f) == scan_groups(ls, p + 14, s5, f));
    assert(scan_groups(ls, p + 10, s3, f) == scan_groups(ls, p + 12, s4, f));
    assert(scan_groups(ls, p + 8, s2, f) == scan_groups(ls, p + 10, s3, f));
    assert(scan_groups(ls, p + 6, s1, f) == scan_groups(ls, p + 8, s2, f));
    assert(scan_groups(ls, p + 4, s0, f) == scan_groups(ls, p + 6, s1, f));
    assert(scan_groups(ls, p + 2, s0, f) == scan_groups(ls, p + 4, s0, f));
}

proof fn lemma_scan_text_entity(ls: Seq<Seq<char>>, p: int, t: TextView, h: nat)
    requires
        0 <= p,
        p + 23 <= ls.len(),
        ls.subrange(p, p + 22) == text_entity_lines(t, h),
        ls[p + 22] == seq!['0'],
        writable_text(t),
    ensures
        scan_groups(ls, p + 2, default_text(), text_steps()) == (t, p + 22),
{
    let e = text_entity_lines(t, h);
    assert forall|j: int| 0 <= j < 22 implies ls[p + j] == e[j] by {
        assert(ls.subrange(p, p + 22)[j] == ls[p + j]);
    }
    lemma_int_text(t.color);
    lemma_align_texts();
    lemma_handle_code();
    let f = text_steps();
    let s0 = default_text();
    assert(text_step(s0, seq!['5'], hex_text(h)) == s0);
    let s1 = text_step(s0, seq!['8'], t.layer);
    let s2 = text_step(s1, seq!['6', '2'], int_text(t.color));
    let s3 = text_step(s2, seq!['1', '0'], t.x);
    let s4 = text_step(s3, seq!['2', '0'], t.y);
    let s5 = text_step(s4, seq!['4', '0'], t.height);
    let s6 = text_step(s5, seq!['1'], t.text);
    let s7 = text_step(s6, seq!['5', '0'], t.rotation);
    let s8 = text_step(s7, seq!['7', '2'], align_h_text(t.align_h));
    let s9 = text_step(s8, seq!['7', '3'], align_v_text(t.align_v));
    assert(seq!['8'][0] != seq!['0'][0]);
    assert(seq!['1'][0] != seq!['0'][0]);
    assert(seq!['1'][0] != seq!['8'][0]);
    assert(seq!['6', '2'][0] != seq!['1', '0'][0]);
    assert(seq!['2', '0'][0] != seq!['1', '0'][0]);
    assert(seq!['2', '0'][0] != seq!['6', '2'][0]);
    assert(seq!['4', '0'][0] != seq!['6', '2'][0]);
    assert(seq!['4', '0'][0] != seq!['1', '0'][0]);
    assert(seq!['4', '0'][0] != seq!['2', '0'][0]);
    assert(seq!['5', '0'][0] != seq!['6', '2'][0]);
    assert(seq!['5', '0'][0] != seq!['1', '0'][0]);
    assert(seq!['5', '0'][0] != seq!['2', '0'][0]);
    assert(seq!['5', '0'][0] != seq!['4', '0'][0]);
    assert(seq!['7', '2'][0] != seq!['6', '2'][0]);
    assert(seq!['7', '2'][0] != seq!['1', '0'][0]);
    assert(seq!['7', '2'][0] != seq!['2', '0'][0]);
    assert(seq!['7', '2'][0] != seq!['4', '0'][0]);
    assert(seq!['7', '2'][0] != seq!['5', '0'][0]);
    assert(seq!['7', '3'][0] != seq!['6', '2'][0]);
    assert(seq!['7', '3'][0] != seq!['1', '0'][0]);
    assert(seq!['7', '3'][0] != seq!['2', '0'][0]);
    assert(seq!['7', '3'][0] != seq!['4', '0'][0]);
    assert(seq!['7', '3'][0] != seq!['5', '0'][0]);
    assert(seq!['7', '3'][1] != seq!['7', '2'][1]);
    assert(seq!['1'] != seq!['6', '2']);
    assert(seq!['1'] != seq!['1', '0']) by {
        assert(seq!['1'].len() == 1);
        assert(seq!['1', '0'].len() == 2);
    }
    assert(seq!['1'] != seq!['2', '0']);
    assert(seq!['1'] != seq!['4', '0']);
    assert(s1 == TextView { layer: t.layer, ..s0 });
    assert(s2 == TextView { color: t.color, ..s1 });
    assert(s3 == TextView { x: t.x, ..s2 });
    assert(s4 == TextView { y: t.y, ..s3 });
    assert(s5 == TextView { height: t.height, ..s4 });
    assert(s6 == TextView { text: t.text, ..s5 });
    assert(s7 == TextView { rotation: t.rotation, ..s6 });
    assert(s8 == TextView { align_h: t.align_h, ..s7 });
    assert(s9 == TextView { align_v: t.align_v, ..s8 });
    assert(s9 == t);
    assert(scan_groups(ls, p + 22, s9, f) == (s9, p + 22));
    assert(scan_groups(ls, p + 20, s8, f) == scan_groups(ls, p + 22, s9, f));
    assert(scan_groups(ls, p + 18, s7, f) == scan_groups(ls, p + 20, s8, f));
    assert(scan_groups(ls, p + 16, s6, f) == scan_groups(ls, p + 18, s7, f));
    assert(scan_groups(ls, p + 14, s5, f) == scan_groups(ls, p + 16, s6, f));
    assert(scan_groups(ls, p + 12, s4, f) == scan_groups(ls, p + 14, s5, f));
    assert(scan_groups(ls, p + 10, s3, f) == scan_groups(ls, p + 12, s4, f));
    assert(scan_groups(ls, p + 8, s2, f) == scan_groups(ls, p + 10, s3, f));
    assert(scan_groups(ls, p + 6, s1, f) == scan_groups(ls, p + 8, s2, f));
    assert(scan_groups(ls, p + 4, s0, f) == scan_groups(ls, p + 6, s1, f));
    assert(scan_groups(ls, p + 2, s0, f) == scan_groups(ls, p + 4, s0, f));
}

proof fn lemma_scan_circle_entity(ls: Seq<Seq<char>>, p: int, c: CircleView, h: nat)
    requires
        0 <= p,
        p + 15 <= ls.len(),
        ls.subrange(p, p + 14) == circle_entity_lines(c, h),
        ls[p + 14] == seq!['0'],
        writable_circle(c),
    ensures
        scan_groups(ls, p + 2, default_circle(), circle_steps()) == (c, p + 14),
{
    let e = circle_entity_lines(c, h);
    assert forall|j: int| 0 <= j < 14 implies ls[p + j] == e[j] by {
        assert(ls.subrange(p, p + 14)[j] == ls[p + j]);
    }
    lemma_int_text(c.color);
    lemma_handle_code();
    let f = circle_steps();
    let s0 = default_circle();
    assert(circle_step(s0, seq!['5'], hex_text(h)) == s0);
    let s1 = circle_step(s0, seq!['8'], c.layer);
    let s2 = circle_step(s1, seq!['6', '2'], int_text(c.color));
    let s3 = circle_step(s2, seq!['1', '0'], c.x);
    let s4 = circle_step(s3, seq!['2', '0'], c.y);
    let s5 = circle_step(s4, seq!['4', '0'], c.radius);
    assert(seq!['8'][0] != seq!['0'][0]);
    assert(seq!['6', '2'][0] != seq!['1', '0'][0]);
    assert(seq!['2', '0'][0] != seq!['1', '0'][0]);
    assert(seq!['2', '0'][0] != seq!['6', '2'][0]);
    assert(seq!['4', '0'][0] != seq!['6', '2'][0]);
    assert(seq!['4', '0'][0] != seq!['1', '0'][0]);
    assert(seq!['4', '0'][0] != seq!['2', '0'][0]);
    assert(s1 == CircleView { layer: c.layer, ..s0 });
    assert(s2 == CircleView { color: c.color, ..s1 });
    assert(s3 == CircleView { x: c.x, ..s2 });
    assert(s4 == CircleView { y: c.y, ..s3 });
    assert(s5 == CircleView { radius: c.radius, ..s4 });
    assert(s5 == c);
    assert(scan_groups(ls, p + 14, s5, f) == (s5, p + 14));
    assert(scan_groups(ls, p + 12, s4, f) == scan_groups(ls, p + 14, s5, f));
    assert(scan_groups(ls, p + 10, s3, f) == scan_groups(ls, p + 12, s4, f));
    assert(scan_groups(ls, p + 8, s2, f) == scan_groups(ls, p + 10, s3, f));
    assert(scan_groups(ls, p + 6, s1, f) == scan_groups(ls, p + 8, s2, f));
    assert(scan_groups(ls, p + 4, s0, f) == scan_groups(ls, p + 6, s1, f));
    assert(scan_groups(ls, p + 2, s0, f) == scan_groups(ls, p + 4, s0, f));
}

proof fn lemma_scan_poly_entity(ls: Seq<Seq<char>>, p: int, pl: PolylineView, h: nat)
    requires
        0 <= p,
        p + poly_entity_lines(pl, h).len() < ls.len(),
        ls.subrange(p, p + poly_entity_lines(pl, h).len()) == poly_entity_lines(pl, h),
        ls[p + poly_entity_lines(pl, h).len()] == seq!['0'],
        writable_poly(pl),
    ensures
        poly_finish(scan_groups(ls, p + 2, (default_polyline(), None), poly_steps()).0) == pl,
        scan_groups(ls, p + 2, (default_polyline(), None), poly_steps()).1 == p
            + poly_entity_lines(pl, h).len(),
{
    let e = poly_entity_lines(pl, h);
    let vs = pl.vertices;
    lemma_vertex_lines_len(vs);
    let n = e.len() as int;
    let hd = seq![
        seq!['0'],
        word_lwpolyline(),
        seq!['5'],
        hex_text(h),
        seq!['8'],
        pl.layer,
        seq!['6', '2'],
        int_text(pl.color),
        seq!['9', '0'],
        decimal(vs.len()),
        seq!['7', '0'],
        closed_text(pl.closed),
    ];
    assert(e == hd + vertex_lines(vs));
    assert(n == 12 + 4 * vs.len());
    assert forall|j: int| 0 <= j < n implies ls[p + j] == e[j] by {
        assert(ls.subrange(p, p + n)[j] == ls[p + j]);
    }
    assert forall|j: int| 0 <= j < 12 implies ls[p + j] == hd[j] by {
        assert(e[j] == hd[j]);
    }
    lemma_int_text(pl.color);
    lemma_int_text(0);
    lemma_int_text(1);
    assert(int_text(0) =~= seq!['0']);
    assert(int_text(1) =~= seq!['1']);
    lemma_poly_codes();
    let f = poly_steps();
    let s0 = (default_polyline(), None::<Seq<char>>);
    assert(poly_step(s0, seq!['5'], hex_text(h)) == s0);
    let s1 = poly_step(s0, seq!['8'], pl.layer);
    let s2 = poly_step(s1, seq!['6', '2'], int_text(pl.color));
    let s3 = poly_step(s2, seq!['9', '0'], decimal(vs.len()));
    let s4 = poly_step(s3, seq!['7', '0'], closed_text(pl.closed));
    let p4 = PolylineView { vertices: Seq::empty(), ..pl };
    assert(s4 == (p4, None::<Seq<char>>));
    assert(scan_groups(ls, p + 2, s0, f) == scan_groups(ls, p + 4, s0, f));
    assert(scan_groups(ls, p + 4, s0, f) == scan_groups(ls, p + 6, s1, f));
    assert(scan_groups(ls, p + 6, s1, f) == scan_groups(ls, p + 8, s2, f));
    assert(scan_groups(ls, p + 8, s2, f) == scan_groups(ls, p + 10, s3, f));
    assert(scan_groups(ls, p + 10, s3, f) == scan_groups(ls, p + 12, s4, f));
    assert(ls.subrange(p + 12, p + n) =~= vertex_lines(vs)) by {
        assert forall|j: int| 0 <= j < 4 * vs.len() implies ls.subrange(p + 12, p + n)[j]
            == vertex_lines(vs)[j] by {
            assert(ls[p + 12 + j] == e[12 + j]);
        }
    }
    lemma_scan_vertices(ls, p + 12, vs, p4);
    assert(p4.vertices + vs =~= vs);
    assert(PolylineView { vertices: p4.vertices + vs, ..p4 } == pl);
}

proof fn lemma_lines_block_len(lvs: Seq<LineView>, h: nat)
    ensures
        lines_block(lvs, h).len() == 16 * lvs.len(),
    decreases lvs.len(),
{
    if lvs.len() > 0 {
        lemma_lines_block_len(lvs.drop_first(), h + 1);
    }
}

proof fn lemma_texts_block_len(tvs: Seq<TextView>, h: nat)
    ensures
        texts_block(tvs, h).len() == 22 * tvs.len(),
    decreases tvs.len(),
{
    if tvs.len() > 0 {
        lemma_texts_block_len(tvs.drop_first(), h + 1);
    }
}

proof fn lemma_circles_block_len(cs: Seq<CircleView>, h: nat)
    ensures
        circles_block(cs, h).len() == 14 * cs.len(),
    decreases cs.len(),
{
    if cs.len() > 0 {
        lemma_circles_block_len(cs.drop_first(), h + 1);
    }
}

proof fn lemma_lines_block_plain(lvs: Seq<LineView>, h: nat)
    requires
        forall|i: int| 0 <= i < lvs.len() ==> writable_line(#[trigger] lvs[i]),
    ensures
        forall|k: int|
            0 <= k < lines_block(lvs, h).len() ==> is_plain_value(#[trigger] lines_block(lvs, h)[k]),
    decreases lvs.len(),
{
    if lvs.len() > 0 {
        let l = lvs[0];
        let rest = lvs.drop_first();
        assert forall|i: int| 0 <= i < rest.len() implies writable_line(#[trigger] rest[i]) by {
            assert(rest[i] == lvs[i + 1]);
        }
        lemma_lines_block_plain(rest, h + 1);
        assert(writable_line(l));
        lemma_codes_plain();
        lemma_hex_plain(h);
        lemma_int_text_plain(l.color);
        lemma_number_plain(l.x1);
        lemma_number_plain(l.y1);
        lemma_number_plain(l.x2);
        lemma_number_plain(l.y2);
        let e = line_entity_lines(l, h);
        assert forall|k: int| 0 <= k < e.len() implies is_plain_value(#[trigger] e[k]) by {
            assert(k == 0 || k == 1 || k == 2 || k == 3 || k == 4 || k == 5 || k == 6 || k == 7 || k
                == 8 || k == 9 || k == 10 || k == 11 || k == 12 || k == 13 || k == 14 || k == 15);
        }
        let b = lines_block(lvs, h);
        assert(b == e + lines_block(rest, h + 1));
        assert forall|k: int| 0 <= k < b.len() implies is_plain_value(#[trigger] b[k]) by {
            if k < e.len() {
                assert(b[k] == e[k]);
            } else {
                assert(b[k] == lines_block(rest, h + 1)[k - e.len()]);
            }
        }
    }
}

proof fn lemma_texts_block_plain(tvs: Seq<TextView>, h: nat)
    requires
        forall|i: int| 0 <= i < tvs.len() ==> writable_text(#[trigger] tvs[i]),
    ensures
        forall|k: int|
            0 <= k < texts_block(tvs, h).len() ==> is_plain_value(#[trigger] texts_block(tvs, h)[k]),
    decreases tvs.len(),
{
    if tvs.len() > 0 {
        let t = tvs[0];
        let rest = tvs.drop_first();
        assert forall|i: int| 0 <= i < rest.len() implies writable_text(#[trigger] rest[i]) by {
            assert(rest[i] == tvs[i + 1]);
        }
        lemma_texts_block_plain(rest, h + 1);
        assert(writable_text(t));
        lemma_codes_plain();
        lemma_hex_plain(h);
        lemma_int_text_plain(t.color);
        lemma_number_plain(t.x);
        lemma_number_plain(t.y);
        lemma_number_plain(t.height);
        lemma_number_plain(t.rotation);
        assert(is_plain_value(align_h_text(t.align_h)));
        assert(is_plain_value(align_v_text(t.align_v)));
        let e = text_entity_lines(t, h);
        assert forall|k: int| 0 <= k < e.len() implies is_plain_value(#[trigger] e[k]) by {
            assert(k == 0 || k == 1 || k == 2 || k == 3 || k == 4 || k == 5 || k == 6 || k == 7 || k
                == 8 || k == 9 || k == 10 || k == 11 || k == 12 || k == 13 || k == 14 || k == 15 || k
                == 16 || k == 17 || k == 18 || k == 19 || k == 20 || k == 21);
        }
        let b = texts_block(tvs, h);
        assert(b == e + texts_block(rest, h + 1));
        assert forall|k: int| 0 <= k < b.len() implies is_plain_value(#[trigger] b[k]) by {
            if k < e.len() {
                assert(b[k] == e[k]);
            } else {
                assert(b[k] == texts_block(rest, h + 1)[k - e.len()]);
            }
        }
    }
}

proof fn lemma_circles_block_plain(cs: Seq<CircleView>, h: nat)
    requires
        forall|i: int| 0 <= i < cs.len() ==> writable_circle(#[trigger] cs[i]),
    ensures
        forall|k: int|
            0 <= k < circles_block(cs, h).len() ==> is_plain_value(
                #[trigger] circles_block(cs, h)[k],
            ),
    decreases cs.len(),
{
    if cs.len() > 0 {
        let c = cs[0];
        let rest = cs.drop_first();
        assert forall|i: int| 0 <= i < rest.len() implies writable_circle(#[trigger] rest[i]) by {
            assert(rest[i] == cs[i + 1]);
        }
        lemma_circles_block_plain(rest, h + 1);
        assert(writable_circle(c));
        lemma_codes_plain();
        lemma_hex_plain(h);
        lemma_literal_plain(word_circle());
        lemma_int_text_plain(c.color);
        lemma_number_plain(c.x);
        lemma_number_plain(c.y);
        lemma_number_plain(c.radius);
        let e = circle_entity_lines(c, h);
        assert forall|k: int| 0 <= k < e.len() implies is_plain_value(#[trigger] e[k]) by {
            assert(k == 0 || k == 1 || k == 2 || k == 3 || k == 4 || k == 5 || k == 6 || k == 7 || k
                == 8 || k == 9 || k == 10 || k == 11 || k == 12 || k == 13);
        }
        let b = circles_block(cs, h);
        assert(b == e + circles_block(rest, h + 1));
        assert forall|k: int| 0 <= k < b.len() implies is_plain_value(#[trigger] b[k]) by {
            if k < e.len() {
                assert(b[k] == e[k]);
            } else {
                assert(b[k] == circles_block(rest, h + 1)[k - e.len()]);
            }
        }
    }
}

proof fn lemma_polys_block_plain(ps: Seq<PolylineView>, h: nat)
    requires
        forall|i: int| 0 <= i < ps.len() ==> writable_poly(#[trigger] ps[i]),
    ensures
        forall|k: int|
            0 <= k < polys_block(ps, h).len() ==> is_plain_value(#[trigger] polys_block(ps, h)[k]),
    decreases ps.len(),
{
    if ps.len() > 0 {
        let pl = ps[0];
        let rest = ps.drop_first();
        assert forall|i: int| 0 <= i < rest.len() implies writable_poly(#[trigger] rest[i]) by {
            assert(rest[i] == ps[i + 1]);
        }
        lemma_polys_block_plain(rest, h + 1);
        assert(writable_poly(pl));
        lemma_codes_plain();
        lemma_hex_plain(h);
        lemma_literal_plain(word_lwpolyline());
        lemma_literal_plain(seq!['9', '0']);
        lemma_literal_plain(seq!['7', '0']);
        lemma_int_text_plain(pl.color);
        lemma_decimal(pl.vertices.len());
        let d = decimal(pl.vertices.len());
        assert forall|i: int| 0 <= i < d.len() implies !is_ws(#[trigger] d[i]) by {
            assert(is_digit(d[i]));
        }
        lemma_no_ws_plain(d);
        assert(is_plain_value(closed_text(pl.closed)));
        lemma_vertex_lines_plain(pl.vertices);
        let hd = seq![
            seq!['0'],
            word_lwpolyline(),
            seq!['5'],
            hex_text(h),
            seq!['8'],
            pl.layer,
            seq!['6', '2'],
            int_text(pl.color),
            seq!['9', '0'],
            d,
            seq!['7', '0'],
            closed_text(pl.closed),
        ];
        let e = poly_entity_lines(pl, h);
        assert(e == hd + vertex_lines(pl.vertices));
        assert forall|k: int| 0 <= k < e.len() implies is_plain_value(#[trigger] e[k]) by {
            if k < 12 {
                assert(e[k] == hd[k]);
                assert(k == 0 || k == 1 || k == 2 || k == 3 || k == 4 || k == 5 || k == 6 || k == 7
                    || k == 8 || k == 9 || k == 10 || k == 11);
            } else {
                assert(e[k] == vertex_lines(pl.vertices)[k - 12]);
            }
        }
        let b = polys_block(ps, h);
        assert(b == e + polys_block(rest, h + 1));
        assert forall|k: int| 0 <= k < b.len() implies is_plain_value(#[trigger] b[k]) by {
            if k < e.len() {
                assert(b[k] == e[k]);
            } else {
                assert(b[k] == polys_block(rest, h + 1)[k - e.len()]);
            }
        }
    }
}

/// Where a run of group pairs ends does not depend on what is made of them.
proof fn lemma_scan_groups_stop<S, T>(
    ls: Seq<Seq<char>>,
    i: int,
    s: S,
    f: spec_fn(S, Seq<char>, Seq<char>) -> S,
    t: T,
    g: spec_fn(T, Seq<char>, Seq<char>) -> T,
)
    ensures
        scan_groups(ls, i, s, f).1 == scan_groups(ls, i, t, g).1,
    decreases ls.len() - i,
{
    if 0 <= i && i + 1 < ls.len() && ls[i] != seq!['0'] {
        lemma_scan_groups_stop(ls, i + 2, f(s, ls[i], ls[i + 1]), f, g(t, ls[i], ls[i + 1]), g);
    }
}

proof fn lemma_scan_lines_block(
    ls: Seq<Seq<char>>,
    p: int,
    lvs: Seq<LineView>,
    h: nat,
    doc: DocView,
)
    requires
        0 <= p,
        p + 16 * lvs.len() + 1 < ls.len(),
        ls.subrange(p, p + 16 * lvs.len()) == lines_block(lvs, h),
        ls[p + 16 * lvs.len()] == seq!['0'],
        forall|i: int| 0 <= i < lvs.len() ==> writable_line(#[trigger] lvs[i]),
    ensures
        scan_entities(ls, p, doc) == scan_entities(
            ls,
            p + 16 * lvs.len(),
            DocView { lines: doc.lines + lvs, ..doc },
        ),
        entity_blocks(ls, p).len() == lvs.len() + entity_blocks(ls, p + 16 * lvs.len()).len(),
    decreases lvs.len(),
{
    if lvs.len() == 0 {
        assert(doc.lines + lvs =~= doc.lines);
    } else {
        let n = lvs.len() as int;
        let l = lvs[0];
        let rest = lvs.drop_first();
        lemma_lines_block_len(rest, h + 1);
        let e = line_entity_lines(l, h);
        let b = lines_block(lvs, h);
        assert(b == e + lines_block(rest, h + 1));
        assert(ls.subrange(p, p + 16) =~= e) by {
            assert forall|j: int| 0 <= j < 16 implies #[trigger] ls.subrange(p, p + 16)[j] == e[j] by {
                assert(ls.subrange(p, p + 16 * n)[j] == b[j]);
            }
        }
        assert(ls.subrange(p + 16, p + 16 * n) =~= lines_block(rest, h + 1)) by {
            assert forall|j: int| 0 <= j < 16 * (n - 1) implies #[trigger] ls.subrange(p + 16, p + 16 * n)[j]
                == lines_block(rest, h + 1)[j] by {
                assert(ls.subrange(p, p + 16 * n)[j + 16] == b[j + 16]);
            }
        }
        if n > 1 {
            assert(ls[p + 16] == b[16]);
            assert(lines_block(rest, h + 1)[0] == line_entity_lines(rest[0], h + 1)[0]);
        }
        assert(ls[p + 16] == seq!['0']);
        assert(writable_line(l));
        lemma_scan_line_entity(ls, p, l, h);
        assert(ls[p] == e[0] && ls[p + 1] == e[1]) by {
            assert(ls.subrange(p, p + 16)[0] == ls[p]);
            assert(ls.subrange(p, p + 16)[1] == ls[p + 1]);
        }
        assert(word_line() != word_endsec()) by {
            assert(word_line().len() != word_endsec().len());
        }
        let doc1 = DocView { lines: doc.lines.push(l), ..doc };
        assert(scan_entities(ls, p, doc) == scan_entities(ls, p + 16, doc1));
        assert forall|i: int| 0 <= i < rest.len() implies writable_line(#[trigger] rest[i]) by {
            assert(rest[i] == lvs[i + 1]);
        }
        lemma_scan_lines_block(ls, p + 16, rest, h + 1, doc1);
        assert(doc1.lines + rest =~= doc.lines + lvs);
        lemma_scan_groups_stop(ls, p + 2, ls[p + 1] + seq!['\n'], block_steps(), default_line(), line_steps());
        assert(entity_blocks(ls, p).len() == 1 + entity_blocks(ls, p + 16).len());
    }
}

proof fn lemma_scan_texts_block(
    ls: Seq<Seq<char>>,
    p: int,
    tvs: Seq<TextView>,
    h: nat,
    doc: DocView,
)
    requires
        0 <= p,
        p + 22 * tvs.len() + 1 < ls.len(),
        ls.subrange(p, p + 22 * tvs.len()) == texts_block(tvs, h),
        ls[p + 22 * tvs.len()] == seq!['0'],
        forall|i: int| 0 <= i < tvs.len() ==> writable_text(#[trigger] tvs[i]),
    ensures
        scan_entities(ls, p, doc) == scan_entities(
            ls,
            p + 22 * tvs.len(),
            DocView { texts: doc.texts + tvs, ..doc },
        ),
        entity_blocks(ls, p).len() == tvs.len() + entity_blocks(ls, p + 22 * tvs.len()).len(),
    decreases tvs.len(),
{
    if tvs.len() == 0 {
        assert(doc.texts + tvs =~= doc.texts);
    } else {
        let n = tvs.len() as int;
        let t = tvs[0];
        let rest = tvs.drop_first();
        lemma_texts_block_len(rest, h + 1);
        let e = text_entity_lines(t, h);
        let b = texts_block(tvs, h);
        assert(b == e + texts_block(rest, h + 1));
        assert(ls.subrange(p, p + 22) =~= e) by {
            assert forall|j: int| 0 <= j < 22 implies #[trigger] ls.subrange(p, p + 22)[j] == e[j] by {
                assert(ls.subrange(p, p + 22 * n)[j] == b[j]);
            }
        }
        assert(ls.subrange(p + 22, p + 22 * n) =~= texts_block(rest, h + 1)) by {
            assert forall|j: int| 0 <= j < 22 * (n - 1) implies #[trigger] ls.subrange(p + 22, p + 22 * n)[j]
                == texts_block(rest, h + 1)[j] by {
                assert(ls.subrange(p, p + 22 * n)[j + 22] == b[j + 22]);
            }
        }
        if n > 1 {
            assert(ls[p + 22] == b[22]);
            assert(texts_block(rest, h + 1)[0] == text_entity_lines(rest[0], h + 1)[0]);
        }
        assert(ls[p + 22] == seq!['0']);
        assert(writable_text(t));
        lemma_scan_text_entity(ls, p, t, h);
        assert(ls[p] == e[0] && ls[p + 1] == e[1]) by {
            assert(ls.subrange(p, p + 22)[0] == ls[p]);
            assert(ls.subrange(p, p + 22)[1] == ls[p + 1]);
        }
        assert(word_text() != word_endsec()) by {
            assert(word_text().len() != word_endsec().len());
        }
        assert(word_text() != word_line()) by {
            assert(word_text()[0] != word_line()[0]);
        }
        let doc1 = DocView { texts: doc.texts.push(t), ..doc };
        assert(scan_entities(ls, p, doc) == scan_entities(ls, p + 22, doc1));
        assert forall|i: int| 0 <= i < rest.len() implies writable_text(#[trigger] rest[i]) by {
            assert(rest[i] == tvs[i + 1]);
        }
        lemma_scan_texts_block(ls, p + 22, rest, h + 1, doc1);
        assert(doc1.texts + rest =~= doc.texts + tvs);
        lemma_scan_groups_stop(ls, p + 2, ls[p + 1] + seq!['\n'], block_steps(), default_text(), text_steps());
        assert(entity_blocks(ls, p).len() == 1 + entity_blocks(ls, p + 22).len());
    }
}

proof fn lemma_scan_circles_block(
    ls: Seq<Seq<char>>,
    p: int,
    cs: Seq<CircleView>,
    h: nat,
    doc: DocView,
)
    requires
        0 <= p,
        p + 14 * cs.len() + 1 < ls.len(),
        ls.subrange(p, p + 14 * cs.len()) == circles_block(cs, h),
        ls[p + 14 * cs.len()] == seq!['0'],
        forall|i: int| 0 <= i < cs.len() ==> writable_circle(#[trigger] cs[i]),
    ensures
        scan_entities(ls, p, doc) == scan_entities(
            ls,
            p + 14 * cs.len(),
            DocView { circles: doc.circles + cs, ..doc },
        ),
        entity_blocks(ls, p).len() == cs.len() + entity_blocks(ls, p + 14 * cs.len()).len(),
    decreases cs.len(),
{
    if cs.len() == 0 {
        assert(doc.circles + cs =~= doc.circles);
    } else {
        let n = cs.len() as int;
        let c = cs[0];
        let rest = cs.drop_first();
        lemma_circles_block_len(rest, h + 1);
        let e = circle_entity_lines(c, h);
        let b = circles_block(cs, h);
        assert(b == e + circles_block(rest, h + 1));
        assert(ls.subrange(p, p + 14) =~= e) by {
            assert forall|j: int| 0 <= j < 14 implies #[trigger] ls.subrange(p, p + 14)[j] == e[j] by {
                assert(ls.subrange(p, p + 14 * n)[j] == b[j]);
            }
        }
        assert(ls.subrange(p + 14, p + 14 * n) =~= circles_block(rest, h + 1)) by {
            assert forall|j: int| 0 <= j < 14 * (n - 1) implies #[trigger] ls.subrange(p + 14, p + 14 * n)[j]
                == circles_block(rest, h + 1)[j] by {
                assert(ls.subrange(p, p + 14 * n)[j + 14] == b[j + 14]);
            }
        }
        if n > 1 {
            assert(ls[p + 14] == b[14]);
            assert(circles_block(rest, h + 1)[0] == circle_entity_lines(rest[0], h + 1)[0]);
        }
        assert(ls[p + 14] == seq!['0']);
        assert(writable_circle(c));
        lemma_scan_circle_entity(ls, p, c, h);
        assert(ls[p] == e[0] && ls[p + 1] == e[1]) by {
            assert(ls.subrange(p, p + 14)[0] == ls[p]);
            assert(ls.subrange(p, p + 14)[1] == ls[p + 1]);
        }
        assert(word_circle() != word_endsec()) by {
            assert(word_circle()[0] != word_endsec()[0]);
        }
        assert(word_circle() != word_line()) by {
            assert(word_circle().len() != word_line().len());
        }
        assert(word_circle() != word_text()) by {
            assert(word_circle().len() != word_text().len());
        }
        let doc1 = DocView { circles: doc.circles.push(c), ..doc };
        assert(scan_entities(ls, p, doc) == scan_entities(ls, p + 14, doc1));
        assert forall|i: int| 0 <= i < rest.len() implies writable_circle(#[trigger] rest[i]) by {
            assert(rest[i] == cs[i + 1]);
        }
        lemma_scan_circles_block(ls, p + 14, rest, h + 1, doc1);
        assert(doc1.circles + rest =~= doc.circles + cs);
        lemma_scan_groups_stop(ls, p + 2, ls[p + 1] + seq!['\n'], block_steps(), default_circle(), circle_steps());
        assert(entity_blocks(ls, p).len() == 1 + entity_blocks(ls, p + 14).len());
    }
}

proof fn lemma_scan_polys_block(
    ls: Seq<Seq<char>>,
    p: int,
    ps: Seq<PolylineView>,
    h: nat,
    doc: DocView,
)
    requires
        0 <= p,
        p + polys_block(ps, h).len() + 1 < ls.len(),
        ls.subrange(p, p + polys_block(ps, h).len()) == polys_block(ps, h),
        ls[p + polys_block(ps, h).len()] == seq!['0'],
        forall|i: int| 0 <= i < ps.len() ==> writable_poly(#[trigger] ps[i]),
    ensures
        scan_entities(ls, p, doc) == scan_entities(
            ls,
            p + polys_block(ps, h).len(),
            DocView { polylines: doc.polylines + ps, ..doc },
        ),
        entity_blocks(ls, p).len() == ps.len() + entity_blocks(ls, p + polys_block(ps, h).len()).len(),
    decreases ps.len(),
{
    if ps.len() == 0 {
        assert(doc.polylines + ps =~= doc.polylines);
    } else {
        let pl = ps[0];
        let rest = ps.drop_first();
        let e = poly_entity_lines(pl, h);
        let b = polys_block(ps, h);
        let n = b.len() as int;
        let m = e.len() as int;
        assert(b == e + polys_block(rest, h + 1));
        assert(m >= 12);
        assert(ls.subrange(p, p + m) =~= e) by {
            assert forall|j: int| 0 <= j < m implies #[trigger] ls.subrange(p, p + m)[j] == e[j] by {
                assert(ls.subrange(p, p + n)[j] == b[j]);
            }
        }
        assert(ls.subrange(p + m, p + n) =~= polys_block(rest, h + 1)) by {
            assert forall|j: int| 0 <= j < n - m implies #[trigger] ls.subrange(p + m, p + n)[j]
                == polys_block(rest, h + 1)[j] by {
                assert(ls.subrange(p, p + n)[j + m] == b[j + m]);
            }
        }
        if n > m {
            assert(ls[p + m] == b[m]);
            assert(polys_block(rest, h + 1)[0] == poly_entity_lines(rest[0], h + 1)[0]);
        }
        assert(ls[p + m] == seq!['0']);
        assert(writable_poly(pl));
        lemma_scan_poly_entity(ls, p, pl, h);
        assert(ls[p] == e[0] && ls[p + 1] == e[1]) by {
            assert(ls.subrange(p, p + m)[0] == ls[p]);
            assert(ls.subrange(p, p + m)[1] == ls[p + 1]);
        }
        assert(word_lwpolyline() != word_endsec()) by {
            assert(word_lwpolyline().len() != word_endsec().len());
        }
        assert(word_lwpolyline() != word_line()) by {
            assert(word_lwpolyline().len() != word_line().len());
        }
        assert(word_lwpolyline() != word_text()) by {
            assert(word_lwpolyline().len() != word_text().len());
        }
        assert(word_lwpolyline() != word_circle()) by {
            assert(word_lwpolyline().len() != word_circle().len());
        }
        let doc1 = DocView { polylines: doc.polylines.push(pl), ..doc };
        assert(scan_entities(ls, p, doc) == scan_entities(ls, p + m, doc1));
        assert forall|i: int| 0 <= i < rest.len() implies writable_poly(#[trigger] rest[i]) by {
            assert(rest[i] == ps[i + 1]);
        }
        lemma_scan_polys_block(ls, p + m, rest, h + 1, doc1);
        assert(doc1.polylines + rest =~= doc.polylines + ps);
        lemma_scan_groups_stop(
            ls,
            p + 2,
            ls[p + 1] + seq!['\n'],
            block_steps(),
            (default_polyline(), None),
            poly_steps(),
        );
        assert(entity_blocks(ls, p).len() == 1 + entity_blocks(ls, p + m).len());
    }
}

/// The DXF number of a horizontal alignment (group 72): left 0, center 1,
/// right 2.
pub open spec fn dxf_h_align_number(a: HorizontalAlignment) -> i32 {
    match a {
        HorizontalAlignment::Left => 0,
        HorizontalAlignment::Center => 1,
        HorizontalAlignment::Right => 2,
    }
}

/// The DXF number of a vertical alignment (group 73): baseline 0, bottom 1,
/// middle 2, top 3.
pub open spec fn dxf_v_align_number(a: VerticalAlignment) -> i32 {
    match a {
        VerticalAlignment::Baseline => 0,
        VerticalAlignment::Bottom => 1,
        VerticalAlignment::Middle => 2,
        VerticalAlignment::Top => 3,
    }
}

/// Alignments travel as their DXF numbers: a written TEXT carries its
/// horizontal alignment's number under group 72 and its vertical
/// alignment's number under group 73; reading a number that some alignment
/// has gives that alignment (also when a reader applies one group pair
/// `v` to a TEXT `e`), and any other number, or a value that is not a
/// number, gives left / baseline.
pub proof fn law_alignment_numbers(t: TextView, h: nat, n: i32, e: TextView, v: Seq<char>)
    ensures
        spec_parse_i32(v) == Some(n) && 0 <= n <= 2 ==> dxf_h_align_number(
            text_step(e, seq!['7', '2'], v).align_h,
        ) == n,
        spec_parse_i32(v) is None ==> text_step(e, seq!['7', '2'], v).align_h
            == HorizontalAlignment::Left,
        spec_parse_i32(v) == Some(n) && 0 <= n <= 3 ==> dxf_v_align_number(
            text_step(e, seq!['7', '3'], v).align_v,
        ) == n,
        spec_parse_i32(v) is None ==> text_step(e, seq!['7', '3'], v).align_v
            == VerticalAlignment::Baseline,
        text_entity_lines(t, h)[18] == seq!['7', '2'],
        spec_parse_i32(text_entity_lines(t, h)[19]) == Some(dxf_h_align_number(t.align_h)),
        text_entity_lines(t, h)[20] == seq!['7', '3'],
        spec_parse_i32(text_entity_lines(t, h)[21]) == Some(dxf_v_align_number(t.align_v)),
        0 <= n <= 2 ==> dxf_h_align_number(align_h_of(n)) == n,
        !(0 <= n <= 2) ==> align_h_of(n) == HorizontalAlignment::Left,
        0 <= n <= 3 ==> dxf_v_align_number(align_v_of(n)) == n,
        !(0 <= n <= 3) ==> align_v_of(n) == VerticalAlignment::Baseline,
{
    lemma_int_text(0);
    lemma_int_text(1);
    lemma_int_text(2);
    lemma_int_text(3);
    assert(int_text(0) =~= seq!['0']);
    assert(int_text(1) =~= seq!['1']);
    assert(int_text(2) =~= seq!['2']);
    assert(int_text(3) =~= seq!['3']);
}

/// Reading back what the writer wrote gives the same drawing: the same
/// lines, texts, circles and polylines in the same order (the handles are
/// not part of an entity's view), provided every layer name and text is one
/// line that does not begin or end with whitespace (the reader trims lines).
#[verifier::rlimit(40)]
pub proof fn law_write_then_read(
    lines: Seq<LineView>,
    texts: Seq<TextView>,
    circles: Seq<CircleView>,
    polys: Seq<PolylineView>,
)
    requires
        forall|i: int| 0 <= i < lines.len() ==> writable_line(#[trigger] lines[i]),
        forall|i: int| 0 <= i < texts.len() ==> writable_text(#[trigger] texts[i]),
        forall|i: int| 0 <= i < circles.len() ==> writable_circle(#[trigger] circles[i]),
        forall|i: int| 0 <= i < polys.len() ==> writable_poly(#[trigger] polys[i]),
    ensures
        spec_parse_dxf(dxf_text(lines, texts, circles, polys)) == Some(
            DocView { lines, texts, circles, polylines: polys },
        ),
        spec_entity_blocks(dxf_text(lines, texts, circles, polys)).len() == lines.len()
            + texts.len() + circles.len() + polys.len(),
{
    let all = dxf_lines(lines, texts, circles, polys);
    let ht: nat = lines.len() + 1;
    let hc: nat = lines.len() + texts.len() + 1;
    let hp: nat = lines.len() + texts.len() + circles.len() + 1;
    lemma_lines_block_len(lines, 1);
    lemma_texts_block_len(texts, ht);
    lemma_circles_block_len(circles, hc);
    lemma_lines_block_plain(lines, 1);
    lemma_texts_block_plain(texts, ht);
    lemma_circles_block_plain(circles, hc);
    lemma_polys_block_plain(polys, hp);
    lemma_codes_plain();
    let head = section_head();
    let lb = lines_block(lines, 1);
    let tb = texts_block(texts, ht);
    let cb = circles_block(circles, hc);
    let pb = polys_block(polys, hp);
    let tail = section_tail();
    assert(all == head + lb + tb + cb + pb + tail);
    let p1: int = lb.len() as int + 4;
    let p2: int = p1 + tb.len();
    let p3: int = p2 + cb.len();
    let p4: int = p3 + pb.len();
    assert(all.len() == p4 + 4);
    assert forall|k: int| 0 <= k < all.len() implies is_plain_value(#[trigger] all[k]) by {
        if k < 4 {
            assert(all[k] == head[k]);
            assert(k == 0 || k == 1 || k == 2 || k == 3);
        } else if k < p1 {
            assert(all[k] == lb[k - 4]);
        } else if k < p2 {
            assert(all[k] == tb[k - p1]);
        } else if k < p3 {
            assert(all[k] == cb[k - p2]);
        } else if k < p4 {
            assert(all[k] == pb[k - p3]);
        } else {
            assert(all[k] == tail[k - p4]);
            assert(k - p4 == 0 || k - p4 == 1 || k - p4 == 2 || k - p4 == 3);
        }
    }
    lemma_split_join(all);
    let content = dxf_text(lines, texts, circles, polys);
    assert(trimmed_lines(content) =~= all) by {
        assert forall|k: int| 0 <= k < all.len() implies trim(all[k]) == all[k] by {
            lemma_plain_trim(all[k]);
        }
    }
    assert(all[0] == seq!['0'] && all[1] == word_section() && all[2] == seq!['2'] && all[3]
        == word_entities());
    assert(find_section_from(all, word_entities(), 0) == Some(4int));
    assert(all.subrange(4, p1) =~= lb) by {
        assert forall|j: int| 0 <= j < lb.len() implies all.subrange(4, p1)[j] == lb[j] by {
            assert(all[j + 4] == lb[j]);
        }
    }
    assert(all.subrange(p1, p2) =~= tb) by {
        assert forall|j: int| 0 <= j < tb.len() implies all.subrange(p1, p2)[j] == tb[j] by {
            assert(all[j + p1] == tb[j]);
        }
    }
    assert(all.subrange(p2, p3) =~= cb) by {
        assert forall|j: int| 0 <= j < cb.len() implies all.subrange(p2, p3)[j] == cb[j] by {
            assert(all[j + p2] == cb[j]);
        }
    }
    assert(all.subrange(p3, p4) =~= pb) by {
        assert forall|j: int| 0 <= j < pb.len() implies all.subrange(p3, p4)[j] == pb[j] by {
            assert(all[j + p3] == pb[j]);
        }
    }
    assert(all[p4] == tail[0] && all[p4 + 1] == tail[1]);
    if pb.len() > 0 {
        assert(all[p3] == pb[0]);
        assert(pb[0] == poly_entity_lines(polys[0], hp)[0]);
    }
    assert(all[p3] == seq!['0']);
    if cb.len() > 0 {
        assert(all[p2] == cb[0]);
        assert(cb[0] == circle_entity_lines(circles[0], hc)[0]);
    }
    assert(all[p2] == seq!['0']);
    if tb.len() > 0 {
        assert(all[p1] == tb[0]);
        assert(tb[0] == text_entity_lines(texts[0], ht)[0]);
    }
    assert(all[p1] == seq!['0']);
    let d0 = empty_doc();
    lemma_scan_lines_block(all, 4, lines, 1, d0);
    let d1 = DocView { lines: d0.lines + lines, ..d0 };
    lemma_scan_texts_block(all, p1, texts, ht, d1);
    let d2 = DocView { texts: d1.texts + texts, ..d1 };
    lemma_scan_circles_block(all, p2, circles, hc, d2);
    let d3 = DocView { circles: d2.circles + circles, ..d2 };
    lemma_scan_polys_block(all, p3, polys, hp, d3);
    let d4 = DocView { polylines: d3.polylines + polys, ..d3 };
    assert(scan_entities(all, p4, d4) == d4);
    assert(d0.lines + lines =~= lines);
    assert(d1.texts + texts =~= texts);
    assert(d2.circles + circles =~= circles);
    assert(d3.polylines + polys =~= polys);
    assert(entity_blocks(all, p4).len() == 0);
}

/// Normalizing the writer's text gives one entity text per entity written.
pub proof fn law_write_then_normalize_count(
    lines: Seq<LineView>,
    texts: Seq<TextView>,
    circles: Seq<CircleView>,
    polys: Seq<PolylineView>,
)
    requires
        forall|i: int| 0 <= i < lines.len() ==> writable_line(#[trigger] lines[i]),
        forall|i: int| 0 <= i < texts.len() ==> writable_text(#[trigger] texts[i]),
        forall|i: int| 0 <= i < circles.len() ==> writable_circle(#[trigger] circles[i]),
        forall|i: int| 0 <= i < polys.len() ==> writable_poly(#[trigger] polys[i]),
    ensures
        sort_texts(spec_entity_blocks(dxf_text(lines, texts, circles, polys))).len() == lines.len()
            + texts.len() + circles.len() + polys.len(),
{
    broadcast use vstd::seq_lib::group_to_multiset_ensures;

    law_write_then_read(lines, texts, circles, polys);
    let e = spec_entity_blocks(dxf_text(lines, texts, circles, polys));
    lemma_sort_texts(e);
    assert(sort_texts(e).to_multiset().len() == e.to_multiset().len());
}

} // verus!

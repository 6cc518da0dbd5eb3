//! DXF index: look-up of station texts, entities by layer, layer names.

use vstd::prelude::*;

use crate::dxf::{DxfLine, DxfText, LineView, TextView};
use crate::dxf_reader::DxfDocument;
use crate::number::NumText;
use crate::text::{contains_ignore_case, contains_ignore_case_exec, chars_of, eq_chars, string_views};

verus! {

/// Whether a layer name matches a pattern: it contains it, ignoring case.
pub open spec fn layer_matches(layer: Seq<char>, pattern: Seq<char>) -> bool {
    contains_ignore_case(layer, pattern)
}

/// The lines of `lines` on layers matching `pattern`, in order.
pub open spec fn lines_matching(lines: Seq<LineView>, pattern: Seq<char>) -> Seq<LineView> {
    lines.filter(|l: LineView| layer_matches(l.layer, pattern))
}

/// The texts of `texts` on layers matching `pattern`, in order.
pub open spec fn texts_matching(texts: Seq<TextView>, pattern: Seq<char>) -> Seq<TextView> {
    texts.filter(|t: TextView| layer_matches(t.layer, pattern))
}

/// `s` without repeats, each item where it first occurs.
pub open spec fn dedup(s: Seq<Seq<char>>) -> Seq<Seq<char>>
    decreases s.len(),
{
    if s.len() == 0 {
        Seq::empty()
    } else {
        let d = dedup(s.drop_last());
        if d.contains(s.last()) {
            d
        } else {
            d.push(s.last())
        }
    }
}

/// The layer names of the lines and then the texts, with repeats.
pub open spec fn layer_names(lines: Seq<LineView>, texts: Seq<TextView>) -> Seq<Seq<char>> {
    lines.map_values(|l: LineView| l.layer) + texts.map_values(|t: TextView| t.layer)
}

/// Index of the first text whose content is `name`.
pub open spec fn first_text_named(texts: Seq<TextView>, name: Seq<char>, i: int) -> Option<int>
    decreases texts.len() - i,
{
    if i < 0 || i >= texts.len() {
        None
    } else if texts[i].text == name {
        Some(i)
    } else {
        first_text_named(texts, name, i + 1)
    }
}

/// What the index holds: the lines and the texts of a document.
pub struct IndexView {
    pub lines: Seq<LineView>,
    pub texts: Seq<TextView>,
}

/// An index over the lines and texts of a DXF document.
pub struct DxfIndex {
    lines: Vec<DxfLine>,
    texts: Vec<DxfText>,
}

impl View for DxfIndex {
    type V = IndexView;

    closed spec fn view(&self) -> IndexView {
        IndexView {
            lines: self.lines@.map_values(|l: DxfLine| l@),
            texts: self.texts@.map_values(|t: DxfText| t@),
        }
    }
}

pub open spec fn line_refs(v: Seq<&DxfLine>) -> Seq<LineView> {
    v.map_values(|l: &DxfLine| l@)
}

pub open spec fn text_refs(v: Seq<&DxfText>) -> Seq<TextView> {
    v.map_values(|t: &DxfText| t@)
}

impl DxfIndex {
    /// An index of the document's lines and texts.
    pub fn from_document(doc: &DxfDocument) -> (r: DxfIndex)
        ensures
            r@ == (IndexView { lines: doc@.lines, texts: doc@.texts }),
    {
        let mut lines: Vec<DxfLine> = Vec::new();
        let mut i: usize = 0;
        while i < doc.lines.len()
            invariant
                i <= doc.lines@.len(),
                lines@.map_values(|l: DxfLine| l@) == doc@.lines.take(i as int),
            decreases doc.lines@.len() - i,
        {
            let ghost before = lines@;
            lines.push(doc.lines[i].copy());
            assert(lines@.map_values(|l: DxfLine| l@) =~= before.map_values(|l: DxfLine| l@).push(
                doc@.lines[i as int],
            ));
            assert(doc@.lines.take(i + 1) =~= doc@.lines.take(i as int).push(doc@.lines[i as int]));
            i += 1;
        }
        let mut texts: Vec<DxfText> = Vec::new();
        let mut j: usize = 0;
        while j < doc.texts.len()
            invariant
                j <= doc.texts@.len(),
                texts@.map_values(|t: DxfText| t@) == doc@.texts.take(j as int),
            decreases doc.texts@.len() - j,
        {
            let ghost before = texts@;
            texts.push(doc.texts[j].copy());
            assert(texts@.map_values(|t: DxfText| t@) =~= before.map_values(|t: DxfText| t@).push(
                doc@.texts[j as int],
            ));
            assert(doc@.texts.take(j + 1) =~= doc@.texts.take(j as int).push(doc@.texts[j as int]));
            j += 1;
        }
        assert(doc@.lines.take(i as int) =~= doc@.lines);
        assert(doc@.texts.take(j as int) =~= doc@.texts);
        DxfIndex { lines, texts }
    }

    /// The position (x, y) of the first text whose content is `station_name`.
    pub fn get_station_coord(&self, station_name: &str) -> (r: Option<(NumText, NumText)>)
        ensures
            match first_text_named(self@.texts, station_name@, 0) {
                Some(i) => r matches Some(p) && p.0@ == self@.texts[i].x && p.1@ == self@.texts[
                    i
                ].y,
                None => r is None,
            },
    {
        let name = chars_of(station_name);
        let mut i: usize = 0;
        while i < self.texts.len()
            invariant
                i <= self.texts@.len(),
                name@ == station_name@,
                first_text_named(self@.texts, station_name@, 0) == first_text_named(
                    self@.texts,
                    station_name@,
                    i as int,
                ),
            decreases self.texts@.len() - i,
        {
            let t = chars_of(self.texts[i].text.as_str());
            if eq_chars(&t, &name) {
                return Some((self.texts[i].x.copy(), self.texts[i].y.copy()));
            }
            i += 1;
        }
        None
    }

    /// The lines on layers matching `layer_pattern` (containing it, ignoring
    /// case), in order.
    pub fn lines_on_layer(&self, layer_pattern: &str) -> (r: Vec<&DxfLine>)
        ensures
            line_refs(r@) == lines_matching(self@.lines, layer_pattern@),
    {
        let mut r: Vec<&DxfLine> = Vec::new();
        let mut i: usize = 0;
        let ghost all = self@.lines;
        while i < self.lines.len()
            invariant
                i <= self.lines@.len(),
                all == self@.lines,
                line_refs(r@) == lines_matching(all.take(i as int), layer_pattern@),
            decreases self.lines@.len() - i,
        {
            let l = &self.lines[i];
            let ghost before = r@;
            proof {
                reveal_with_fuel(Seq::<_>::filter, 1);
                assert(all.take(i + 1).drop_last() =~= all.take(i as int));
            }
            if contains_ignore_case_exec(l.layer.as_str(), layer_pattern) {
                r.push(l);
                assert(line_refs(r@) =~= line_refs(before).push(l@));
            }
            i += 1;
        }
        assert(all.take(i as int) =~= all);
        r
    }

    /// The texts on layers matching `layer_pattern` (containing it, ignoring
    /// case), in order.
    pub fn texts_on_layer(&self, layer_pattern: &str) -> (r: Vec<&DxfText>)
        ensures
            text_refs(r@) == texts_matching(self@.texts, layer_pattern@),
    {
        let mut r: Vec<&DxfText> = Vec::new();
        let mut i: usize = 0;
        let ghost all = self@.texts;
        while i < self.texts.len()
            invariant
                i <= self.texts@.len(),
                all == self@.texts,
                text_refs(r@) == texts_matching(all.take(i as int), layer_pattern@),
            decreases self.texts@.len() - i,
        {
            let t = &self.texts[i];
            let ghost before = r@;
            proof {
                reveal_with_fuel(Seq::<_>::filter, 1);
                assert(all.take(i + 1).drop_last() =~= all.take(i as int));
            }
            if contains_ignore_case_exec(t.layer.as_str(), layer_pattern) {
                r.push(t);
                assert(text_refs(r@) =~= text_refs(before).push(t@));
            }
            i += 1;
        }
        assert(all.take(i as int) =~= all);
        r
    }

    /// The distinct layer names of the lines, then the texts, each where it
    /// first occurs.
    pub fn layers(&self) -> (r: Vec<String>)
        ensures
            string_views(r@) == dedup(layer_names(self@.lines, self@.texts)),
    {
        let ghost ln = self@.lines.map_values(|l: LineView| l.layer);
        let ghost tn = self@.texts.map_values(|t: TextView| t.layer);
        let mut r: Vec<String> = Vec::new();
        let mut seen: Vec<Vec<char>> = Vec::new();
        let mut i: usize = 0;
        assert(ln.take(0) =~= Seq::<Seq<char>>::empty());
        while i < self.lines.len()
            invariant
                i <= self.lines@.len(),
                ln == self@.lines.map_values(|l: LineView| l.layer),
                string_views(r@) == dedup(ln.take(i as int)),
                crate::text::views(seen@) == string_views(r@),
            decreases self.lines@.len() - i,
        {
            let layer = &self.lines[i].layer;
            assert(ln.take(i + 1) =~= ln.take(i as int).push(layer@));
            assert(ln.take(i as int).push(layer@).drop_last() =~= ln.take(i as int));
            add_new_name(&mut r, &mut seen, layer);
            i += 1;
        }
        assert(ln.take(i as int) =~= ln);
        let mut j: usize = 0;
        assert(ln + tn.take(0) =~= ln);
        while j < self.texts.len()
            invariant
                j <= self.texts@.len(),
                tn == self@.texts.map_values(|t: TextView| t.layer),
                string_views(r@) == dedup(ln + tn.take(j as int)),
                crate::text::views(seen@) == string_views(r@),
            decreases self.texts@.len() - j,
        {
            let layer = &self.texts[j].layer;
            assert(ln + tn.take(j + 1) =~= (ln + tn.take(j as int)).push(layer@));
            assert((ln + tn.take(j as int)).push(layer@).drop_last() =~= ln + tn.take(j as int));
            add_new_name(&mut r, &mut seen, layer);
            j += 1;
        }
        assert(tn.take(j as int) =~= tn);
        r
    }
}

/// Whether `x` is among the character vectors of `v`.
fn contains_chars(v: &Vec<Vec<char>>, x: &[char]) -> (r: bool)
    ensures
        r == crate::text::views(v@).contains(x@),
{
    let mut k: usize = 0;
    while k < v.len()
        invariant
            k <= v@.len(),
            forall|m: int| 0 <= m < k ==> v@[m]@ != x@,
        decreases v@.len() - k,
    {
        if eq_chars(&v[k], x) {
            assert(crate::text::views(v@)[k as int] == x@);
            return true;
        }
        k += 1;
    }
    false
}

/// Appends `name` unless it was seen: the names seen become `dedup` of the
/// names so far with `name` added.
fn add_new_name(r: &mut Vec<String>, seen: &mut Vec<Vec<char>>, name: &String)
    requires
        crate::text::views(old(seen)@) == string_views(old(r)@),
    ensures
        crate::text::views(final(seen)@) == string_views(final(r)@),
        string_views(final(r)@) == if string_views(old(r)@).contains(name@) {
            string_views(old(r)@)
        } else {
            string_views(old(r)@).push(name@)
        },
{
    let nc = chars_of(name.as_str());
    if !contains_chars(seen, &nc) {
        let ghost b1 = r@;
        let ghost b2 = seen@;
        r.push(name.clone());
        seen.push(nc);
        assert(string_views(r@) =~= string_views(b1).push(name@));
        assert(crate::text::views(seen@) =~= crate::text::views(b2).push(name@));
    }
}

/// `dedup` keeps each item once and keeps exactly the items of its input.
pub proof fn lemma_dedup(s: Seq<Seq<char>>)
    ensures
        forall|i: int, j: int|
            0 <= i < j < dedup(s).len() ==> #[trigger] dedup(s)[i] != #[trigger] dedup(s)[j],
        forall|x: Seq<char>| #[trigger] dedup(s).contains(x) <==> s.contains(x),
    decreases s.len(),
{
    if s.len() > 0 {
        let pre = s.drop_last();
        lemma_dedup(pre);
        let d = dedup(pre);
        assert forall|x: Seq<char>| #[trigger] dedup(s).contains(x) <==> s.contains(x) by {
            if s.contains(x) {
                let k = choose|k: int| 0 <= k < s.len() && s[k] == x;
                if k < s.len() - 1 {
                    assert(pre[k] == x);
                    assert(pre.contains(x));
                    assert(d.contains(x));
                    if !d.contains(s.last()) {
                        let m = choose|m: int| 0 <= m < d.len() && d[m] == x;
                        assert(d.push(s.last())[m] == x);
                    }
                } else if !d.contains(s.last()) {
                    assert(d.push(s.last())[d.len() as int] == x);
                }
            }
            if dedup(s).contains(x) {
                if d.contains(x) {
                    assert(pre.contains(x));
                    let k = choose|k: int| 0 <= k < pre.len() && pre[k] == x;
                    assert(s[k] == x);
                } else {
                    let m = choose|m: int| 0 <= m < dedup(s).len() && dedup(s)[m] == x;
                    assert(x == s.last());
                    assert(s[s.len() - 1] == x);
                }
            }
        }
        if !d.contains(s.last()) {
            assert forall|i: int, j: int|
                0 <= i < j < dedup(s).len() implies #[trigger] dedup(s)[i] != #[trigger] dedup(
                s,
            )[j] by {
                if j == d.len() {
                    assert(d[i] == dedup(s)[i]);
                } else {
                    assert(d[i] == dedup(s)[i] && d[j] == dedup(s)[j]);
                }
            }
        }
    }
}

/// The layers of an index: no name twice, and exactly the names of the
/// layers its lines and texts are on.
pub proof fn law_layers_distinct_and_complete(lines: Seq<LineView>, texts: Seq<TextView>)
    ensures
        forall|i: int, j: int|
            0 <= i < j < dedup(layer_names(lines, texts)).len() ==> #[trigger] dedup(
                layer_names(lines, texts),
            )[i] != #[trigger] dedup(layer_names(lines, texts))[j],
        forall|l: int| 0 <= l < lines.len() ==> dedup(layer_names(lines, texts)).contains(
            #[trigger] lines[l].layer,
        ),
        forall|t: int| 0 <= t < texts.len() ==> dedup(layer_names(lines, texts)).contains(
            #[trigger] texts[t].layer,
        ),
        forall|x: Seq<char>| #[trigger]
            dedup(layer_names(lines, texts)).contains(x) ==> (exists|l: int|
                0 <= l < lines.len() && lines[l].layer == x) || (exists|t: int|
                0 <= t < texts.len() && texts[t].layer == x),
{
    let names = layer_names(lines, texts);
    lemma_dedup(names);
    assert forall|l: int| 0 <= l < lines.len() implies dedup(names).contains(
        #[trigger] lines[l].layer,
    ) by {
        assert(names[l] == lines[l].layer);
        assert(names.contains(lines[l].layer));
    }
    assert forall|t: int| 0 <= t < texts.len() implies dedup(names).contains(
        #[trigger] texts[t].layer,
    ) by {
        assert(names[lines.len() + t] == texts[t].layer);
        assert(names.contains(texts[t].layer));
    }
    assert forall|x: Seq<char>| #[trigger] dedup(names).contains(x) implies (exists|l: int|
        0 <= l < lines.len() && lines[l].layer == x) || (exists|t: int|
        0 <= t < texts.len() && texts[t].layer == x) by {
        assert(names.contains(x));
        let k = choose|k: int| 0 <= k < names.len() && names[k] == x;
        if k < lines.len() {
            assert(lines[k].layer == x);
        } else {
            assert(texts[k - lines.len()].layer == x);
        }
    }
}

} // verus!

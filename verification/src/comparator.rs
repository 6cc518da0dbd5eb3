//! DXF comparison: entities of the ENTITIES section with handles (group
//! code 5) removed, in sorted order, so that two drawings that differ only
//! in handles and entity order compare equal.

use vstd::prelude::*;

use crate::dxf_reader::{
    find_section_from, scan_groups, lemma_scan_groups_bounds, trimmed_lines, trimmed_lines_of,
    word_endsec, word_entities, word_section, find_section_start, lemma_find_section_bound,
};
use crate::text::{views, is1, eq_chars, string_of, string_views};

verus! {

broadcast use vstd::seq_lib::group_to_multiset_ensures;

/// One group pair added to an entity's text: `code\nvalue\n`, except a
/// handle (code 5), which is left out.
pub open spec fn block_step(acc: Seq<char>, code: Seq<char>, value: Seq<char>) -> Seq<char> {
    if code == seq!['5'] {
        acc
    } else {
        acc + code + seq!['\n'] + value + seq!['\n']
    }
}

pub open spec fn block_steps() -> spec_fn(Seq<char>, Seq<char>, Seq<char>) -> Seq<char> {
    |acc: Seq<char>, c: Seq<char>, v: Seq<char>| block_step(acc, c, v)
}

/// The texts of the entities from index `i` on: each its type line and its
/// pairs without handles, up to `0 / ENDSEC` or until fewer than two lines
/// are left.
pub open spec fn entity_blocks(ls: Seq<Seq<char>>, i: int) -> Seq<Seq<char>>
    decreases ls.len() - i,
{
    if 0 <= i && i + 1 < ls.len() {
        if ls[i] == seq!['0'] && ls[i + 1] == word_endsec() {
            Seq::empty()
        } else if ls[i] == seq!['0'] {
            let r = scan_groups(ls, i + 2, ls[i + 1] + seq!['\n'], block_steps());
            proof {
                lemma_scan_groups_bounds(ls, i + 2, ls[i + 1] + seq!['\n'], block_steps());
            }
            seq![r.0] + entity_blocks(ls, r.1)
        } else {
            entity_blocks(ls, i + 2)
        }
    } else {
        Seq::empty()
    }
}

/// The entity texts of a DXF text (none without an ENTITIES section).
pub open spec fn spec_entity_blocks(content: Seq<char>) -> Seq<Seq<char>> {
    let ls = trimmed_lines(content);
    match find_section_from(ls, word_entities(), 0) {
        Some(k) => entity_blocks(ls, k),
        None => Seq::empty(),
    }
}

/// Lexicographic order of texts by character code (the order of `str`).
pub open spec fn lex_le(a: Seq<char>, b: Seq<char>) -> bool
    decreases a.len(),
{
    if a.len() == 0 {
        true
    } else if b.len() == 0 {
        false
    } else if a[0] != b[0] {
        a[0] < b[0]
    } else {
        lex_le(a.drop_first(), b.drop_first())
    }
}

pub open spec fn sorted(s: Seq<Seq<char>>) -> bool {
    forall|i: int, j: int| 0 <= i < j < s.len() ==> lex_le(#[trigger] s[i], #[trigger] s[j])
}

pub proof fn lemma_lex_total(a: Seq<char>, b: Seq<char>)
    ensures
        lex_le(a, b) || lex_le(b, a),
    decreases a.len(),
{
    if a.len() > 0 && b.len() > 0 && a[0] == b[0] {
        lemma_lex_total(a.drop_first(), b.drop_first());
    }
}

pub proof fn lemma_lex_trans(a: Seq<char>, b: Seq<char>, c: Seq<char>)
    requires
        lex_le(a, b),
        lex_le(b, c),
    ensures
        lex_le(a, c),
    decreases a.len(),
{
    if a.len() > 0 && b.len() > 0 && c.len() > 0 && a[0] == b[0] && b[0] == c[0] {
        lemma_lex_trans(a.drop_first(), b.drop_first(), c.drop_first());
    }
}

pub proof fn lemma_lex_antisym(a: Seq<char>, b: Seq<char>)
    requires
        lex_le(a, b),
        lex_le(b, a),
    ensures
        a == b,
    decreases a.len(),
{
    if a.len() > 0 && b.len() > 0 {
        lemma_lex_antisym(a.drop_first(), b.drop_first());
        assert(a =~= seq![a[0]] + a.drop_first());
        assert(b =~= seq![b[0]] + b.drop_first());
    } else {
        assert(a =~= b);
    }
}

pub proof fn lemma_lex_refl(a: Seq<char>)
    ensures
        lex_le(a, a),
    decreases a.len(),
{
    if a.len() > 0 {
        lemma_lex_refl(a.drop_first());
    }
}

/// `x` inserted into `s` before the first text not before it.
pub open spec fn insert_text(s: Seq<Seq<char>>, x: Seq<char>) -> Seq<Seq<char>>
    decreases s.len(),
{
    if s.len() == 0 {
        seq![x]
    } else if lex_le(x, s[0]) {
        seq![x] + s
    } else {
        seq![s[0]] + insert_text(s.drop_first(), x)
    }
}

/// The texts of `s` in lexicographic order (insertion sort).
pub open spec fn sort_texts(s: Seq<Seq<char>>) -> Seq<Seq<char>>
    decreases s.len(),
{
    if s.len() == 0 {
        Seq::empty()
    } else {
        insert_text(sort_texts(s.drop_last()), s.last())
    }
}

proof fn lemma_insert_text(s: Seq<Seq<char>>, x: Seq<char>)
    requires
        sorted(s),
    ensures
        sorted(insert_text(s, x)),
        insert_text(s, x).to_multiset() == s.to_multiset().insert(x),
        insert_text(s, x).len() == s.len() + 1,
        forall|k: int| 0 <= k < insert_text(s, x).len() ==> (#[trigger] insert_text(s, x)[k] == x
            || s.contains(insert_text(s, x)[k])),
    decreases s.len(),
{
    broadcast use vstd::seq_lib::group_to_multiset_ensures;

    let r = insert_text(s, x);
    if s.len() == 0 {
        assert(seq![x] =~= Seq::<Seq<char>>::empty().push(x));
    } else if lex_le(x, s[0]) {
        assert forall|i: int, j: int| 0 <= i < j < r.len() implies lex_le(
            #[trigger] r[i],
            #[trigger] r[j],
        ) by {
            if i == 0 {
                if j > 1 {
                    lemma_lex_trans(x, s[0], s[j - 1]);
                }
            } else {
                assert(r[i] == s[i - 1] && r[j] == s[j - 1]);
            }
        }
        assert(r =~= s.insert(0, x));
        assert(s.insert(0, x).remove(0) =~= s);
        assert(r.remove(0) =~= s);
        assert(r.to_multiset().remove(x) == s.to_multiset());
        assert(r.to_multiset().count(x) > 0) by {
            assert(r.contains(x));
        }
        assert(r.to_multiset() =~= s.to_multiset().insert(x));
        assert forall|k: int| 0 <= k < r.len() implies (#[trigger] r[k] == x || s.contains(r[k])) by {
            if k > 0 {
                assert(r[k] == s[k - 1]);
            }
        }
    } else {
        let t = s.drop_first();
        assert(sorted(t)) by {
            assert forall|i: int, j: int| 0 <= i < j < t.len() implies lex_le(
                #[trigger] t[i],
                #[trigger] t[j],
            ) by {
                assert(t[i] == s[i + 1] && t[j] == s[j + 1]);
            }
        }
        lemma_insert_text(t, x);
        let rt = insert_text(t, x);
        assert(r == seq![s[0]] + rt);
        lemma_lex_total(x, s[0]);
        assert forall|i: int, j: int| 0 <= i < j < r.len() implies lex_le(
            #[trigger] r[i],
            #[trigger] r[j],
        ) by {
            if i == 0 {
                assert(r[j] == rt[j - 1]);
                if rt[j - 1] == x {
                } else {
                    assert(t.contains(rt[j - 1]));
                    let m = choose|m: int| 0 <= m < t.len() && t[m] == rt[j - 1];
                    assert(s[m + 1] == t[m]);
                }
            } else {
                assert(r[i] == rt[i - 1] && r[j] == rt[j - 1]);
            }
        }
        assert(r.remove(0) =~= rt);
        assert(s.remove(0) =~= t);
        assert(r.to_multiset().remove(s[0]) == rt.to_multiset());
        assert(s.to_multiset().remove(s[0]) == t.to_multiset());
        assert(r.to_multiset().count(s[0]) > 0) by {
            assert(r[0] == s[0]);
            assert(r.contains(s[0]));
        }
        assert(s.to_multiset().count(s[0]) > 0) by {
            assert(s.contains(s[0]));
        }
        assert(r.to_multiset() =~= rt.to_multiset().insert(s[0]));
        assert(s.to_multiset() =~= t.to_multiset().insert(s[0]));
        assert(r.to_multiset() =~= s.to_multiset().insert(x));
        assert forall|k: int| 0 <= k < r.len() implies (#[trigger] r[k] == x || s.contains(r[k])) by {
            if k == 0 {
                assert(s.contains(s[0]));
            } else {
                assert(r[k] == rt[k - 1]);
                if rt[k - 1] != x {
                    assert(t.contains(rt[k - 1]));
                    let m = choose|m: int| 0 <= m < t.len() && t[m] == rt[k - 1];
                    assert(s[m + 1] == t[m]);
                }
            }
        }
    }
}

/// `sort_texts` orders the texts and keeps each as often as it occurs.
pub proof fn lemma_sort_texts(s: Seq<Seq<char>>)
    ensures
        sorted(sort_texts(s)),
        sort_texts(s).to_multiset() == s.to_multiset(),
    decreases s.len(),
{
    broadcast use vstd::seq_lib::group_to_multiset_ensures;

    if s.len() > 0 {
        lemma_sort_texts(s.drop_last());
        lemma_insert_text(sort_texts(s.drop_last()), s.last());
        assert(s.drop_last().push(s.last()) =~= s);
    }
}

/// Two sorted sequences that hold the same texts, counted with
/// multiplicity, are equal.
pub proof fn lemma_sorted_unique(a: Seq<Seq<char>>, b: Seq<Seq<char>>)
    requires
        sorted(a),
        sorted(b),
        a.to_multiset() == b.to_multiset(),
    ensures
        a == b,
    decreases a.len(),
{
    broadcast use vstd::seq_lib::group_to_multiset_ensures;

    if a.len() == 0 {
        assert(a.to_multiset().len() == b.to_multiset().len());
        assert(b.len() == 0);
        assert(a =~= b);
    } else {
        a.to_multiset_ensures();
        b.to_multiset_ensures();
        assert(b.len() == a.len());
        assert(a.contains(a[0]));
        assert(b.to_multiset().count(a[0]) > 0);
        assert(b.contains(a[0]));
        let j = choose|j: int| 0 <= j < b.len() && b[j] == a[0];
        assert(b.contains(b[0]));
        assert(a.to_multiset().count(b[0]) > 0);
        assert(a.contains(b[0]));
        let i = choose|i: int| 0 <= i < a.len() && a[i] == b[0];
        lemma_lex_refl(a[0]);
        lemma_lex_refl(b[0]);
        assert(lex_le(b[0], a[0])) by {
            if j > 0 {
                assert(lex_le(b[0], b[j]));
            }
        }
        assert(lex_le(a[0], b[0])) by {
            if i > 0 {
                assert(lex_le(a[0], a[i]));
            }
        }
        lemma_lex_antisym(a[0], b[0]);
        let ta = a.drop_first();
        let tb = b.drop_first();
        assert(a.remove(0) =~= ta);
        assert(b.remove(0) =~= tb);
        assert(ta.to_multiset() == tb.to_multiset());
        assert(sorted(ta)) by {
            assert forall|p: int, q: int| 0 <= p < q < ta.len() implies lex_le(
                #[trigger] ta[p],
                #[trigger] ta[q],
            ) by {
                assert(ta[p] == a[p + 1] && ta[q] == a[q + 1]);
            }
        }
        assert(sorted(tb)) by {
            assert forall|p: int, q: int| 0 <= p < q < tb.len() implies lex_le(
                #[trigger] tb[p],
                #[trigger] tb[q],
            ) by {
                assert(tb[p] == b[p + 1] && tb[q] == b[q + 1]);
            }
        }
        lemma_sorted_unique(ta, tb);
        assert(a =~= b) by {
            assert forall|k: int| 0 <= k < a.len() implies a[k] == b[k] by {
                if k > 0 {
                    assert(a[k] == ta[k - 1] && b[k] == tb[k - 1]);
                }
            }
        }
    }
}

/// `a` comes before or equals `b` in lexicographic order.
fn lex_le_exec(a: &[char], b: &[char]) -> (r: bool)
    ensures
        r == lex_le(a@, b@),
{
    let mut i: usize = 0;
    assert(a@.skip(0) =~= a@);
    assert(b@.skip(0) =~= b@);
    while i < a.len() && i < b.len() && a[i] == b[i]
        invariant
            i <= a@.len(),
            i <= b@.len(),
            lex_le(a@, b@) == lex_le(a@.skip(i as int), b@.skip(i as int)),
        decreases a@.len() - i,
    {
        assert(a@.skip(i as int).drop_first() =~= a@.skip(i + 1));
        assert(b@.skip(i as int).drop_first() =~= b@.skip(i + 1));
        i += 1;
    }
    if i == a.len() {
        true
    } else if i == b.len() {
        false
    } else {
        a[i] < b[i]
    }
}

/// Inserts `x` into the sorted `v` before the first item not before it.
fn insert_sorted(v: &mut Vec<Vec<char>>, x: Vec<char>)
    requires
        sorted(views(old(v)@)),
    ensures
        sorted(views(final(v)@)),
        views(final(v)@).to_multiset() == views(old(v)@).to_multiset().insert(x@),
{
    let mut k: usize = 0;
    while k < v.len() && !lex_le_exec(&x, &v[k])
        invariant
            k <= v@.len(),
            forall|m: int| 0 <= m < k ==> !lex_le(x@, #[trigger] v@[m]@),
        decreases v@.len() - k,
    {
        k += 1;
    }
    let ghost old_v = views(v@);
    let ghost xv = x@;
    v.insert(k, x);
    assert(views(v@) =~= old_v.insert(k as int, xv));
    proof {
        let nv = views(v@);
        assert forall|i: int, j: int| 0 <= i < j < nv.len() implies lex_le(
            #[trigger] nv[i],
            #[trigger] nv[j],
        ) by {
            if j < k {
                assert(nv[i] == old_v[i] && nv[j] == old_v[j]);
            } else if j == k {
                assert(!lex_le(xv, old_v[i]));
                lemma_lex_total(xv, old_v[i]);
            } else if i == k {
                assert(nv[j] == old_v[j - 1]);
                assert(lex_le(xv, old_v[k as int]));
                if j - 1 > k {
                    lemma_lex_trans(xv, old_v[k as int], old_v[j - 1]);
                }
            } else if i < k {
                assert(nv[i] == old_v[i] && nv[j] == old_v[j - 1]);
            } else {
                assert(nv[i] == old_v[i - 1] && nv[j] == old_v[j - 1]);
            }
        }
    }
}

/// Appends `v` to `acc`.
fn append_chars(acc: &mut Vec<char>, v: &[char])
    ensures
        final(acc)@ == old(acc)@ + v@,
{
    let mut i: usize = 0;
    let ghost start = acc@;
    while i < v.len()
        invariant
            i <= v@.len(),
            acc@ == start + v@.take(i as int),
        decreases v@.len() - i,
    {
        acc.push(v[i]);
        assert(v@.take(i + 1) =~= v@.take(i as int).push(v@[i as int]));
        assert(acc@ =~= start + v@.take(i + 1));
        i += 1;
    }
    assert(v@.take(i as int) =~= v@);
}

/// The text of the entity whose pairs begin at `start`, after `head`.
fn read_block(lines: &[Vec<char>], start: usize, head: Vec<char>) -> (r: (Vec<char>, usize))
    requires
        start <= lines@.len(),
    ensures
        (r.0@, r.1 as int) == scan_groups(views(lines@), start as int, head@, block_steps()),
{
    let ghost ls = views(lines@);
    let mut acc = head;
    let mut i = start;
    while i < lines.len() && i + 1 < lines.len() && !is1(&lines[i], '0')
        invariant
            start <= i <= lines@.len(),
            ls == views(lines@),
            scan_groups(ls, start as int, head@, block_steps()) == scan_groups(
                ls,
                i as int,
                acc@,
                block_steps(),
            ),
        decreases lines@.len() - i,
    {
        let code = &lines[i];
        let value = &lines[i + 1];
        let ghost before = acc@;
        if !is1(code, '5') {
            append_chars(&mut acc, code);
            acc.push('\n');
            append_chars(&mut acc, value);
            acc.push('\n');
        }
        assert(acc@ =~= block_step(before, ls[i as int], ls[i + 1]));
        i += 2;
    }
    (acc, i)
}

/// The entity texts from index `start` on (see `entity_blocks`).
fn collect_blocks(lines: &[Vec<char>], start: usize) -> (r: Vec<Vec<char>>)
    requires
        start <= lines@.len(),
    ensures
        views(r@) == entity_blocks(views(lines@), start as int),
{
    let ghost ls = views(lines@);
    let endsec = ['E', 'N', 'D', 'S', 'E', 'C'];
    assert(endsec@ =~= word_endsec());
    let mut out: Vec<Vec<char>> = Vec::new();
    let mut i = start;
    while i < lines.len() && i + 1 < lines.len()
        invariant
            ls == views(lines@),
            i <= lines@.len(),
            endsec@ == word_endsec(),
            views(out@) + entity_blocks(ls, i as int) == entity_blocks(ls, start as int),
        ensures
            views(out@) == entity_blocks(ls, start as int),
        decreases lines@.len() - i,
    {
        if is1(&lines[i], '0') && eq_chars(&lines[i + 1], &endsec) {
            assert(views(out@) + entity_blocks(ls, i as int) =~= views(out@));
            break;
        }
        if is1(&lines[i], '0') {
            let mut head = lines[i + 1].clone();
            head.push('\n');
            assert(head@ =~= ls[i + 1] + seq!['\n']);
            let (block, next) = read_block(lines, i + 2, head);
            proof {
                lemma_scan_groups_bounds(ls, i + 2, ls[i + 1] + seq!['\n'], block_steps());
            }
            let ghost before = views(out@);
            out.push(block);
            assert(views(out@) =~= before.push(block@));
            assert(views(out@) + entity_blocks(ls, next as int) =~= before + entity_blocks(ls, i as int));
            i = next;
        } else {
            i += 2;
        }
    }
    out
}

/// A normalized DXF text: its entities without handles, sorted.
#[derive(Debug, PartialEq)]
pub struct DxfComparable {
    pub entities: Vec<String>,
}

impl DxfComparable {
    /// Normalizes a DXF text for comparison: the entities of its ENTITIES
    /// section, each its type and pairs without handles, in sorted order.
    pub fn normalize(dxf_content: &str) -> (r: DxfComparable)
        ensures
            string_views(r.entities@) == sort_texts(spec_entity_blocks(dxf_content@)),
            sorted(string_views(r.entities@)),
    {
        let lines = trimmed_lines_of(dxf_content);
        let ghost ls = views(lines@);
        let entities_w = ['E', 'N', 'T', 'I', 'T', 'I', 'E', 'S'];
        assert(entities_w@ =~= word_entities());
        let blocks = match find_section_start(&lines, &entities_w) {
            Some(k) => collect_blocks(&lines, k),
            None => {
                let b: Vec<Vec<char>> = Vec::new();
                assert(views(b@) =~= Seq::<Seq<char>>::empty());
                b
            },
        };
        let mut sorted_blocks: Vec<Vec<char>> = Vec::new();
        let mut i: usize = 0;
        assert(views(blocks@).take(0) =~= Seq::<Seq<char>>::empty());
        while i < blocks.len()
            invariant
                i <= blocks@.len(),
                sorted(views(sorted_blocks@)),
                views(sorted_blocks@).to_multiset() == views(blocks@).take(i as int).to_multiset(),
            decreases blocks@.len() - i,
        {
            insert_sorted(&mut sorted_blocks, blocks[i].clone());
            assert(views(blocks@).take(i + 1) =~= views(blocks@).take(i as int).push(
                blocks@[i as int]@,
            ));
            i += 1;
        }
        assert(views(blocks@).take(i as int) =~= views(blocks@));
        let mut entities: Vec<String> = Vec::new();
        let mut j: usize = 0;
        while j < sorted_blocks.len()
            invariant
                j <= sorted_blocks@.len(),
                string_views(entities@) == views(sorted_blocks@).take(j as int),
            decreases sorted_blocks@.len() - j,
        {
            let ghost before = entities@;
            entities.push(string_of(&sorted_blocks[j]));
            assert(string_views(entities@) =~= string_views(before).push(sorted_blocks@[j as int]@));
            assert(views(sorted_blocks@).take(j + 1) =~= views(sorted_blocks@).take(j as int).push(
                sorted_blocks@[j as int]@,
            ));
            j += 1;
        }
        assert(views(sorted_blocks@).take(j as int) =~= views(sorted_blocks@));
        proof {
            lemma_sort_texts(views(blocks@));
            lemma_sorted_unique(views(sorted_blocks@), sort_texts(views(blocks@)));
        }
        DxfComparable { entities }
    }
}

/// Normalization ignores entity order: two DXF texts normalize to the same
/// entities exactly when their ENTITIES sections hold the same entity texts
/// (handles removed), each as many times.
pub proof fn law_normalize_order_independent(a: Seq<char>, b: Seq<char>)
    ensures
        sort_texts(spec_entity_blocks(a)) == sort_texts(spec_entity_blocks(b))
            <==> spec_entity_blocks(a).to_multiset() == spec_entity_blocks(b).to_multiset(),
{
    let ea = spec_entity_blocks(a);
    let eb = spec_entity_blocks(b);
    lemma_sort_texts(ea);
    lemma_sort_texts(eb);
    if ea.to_multiset() == eb.to_multiset() {
        lemma_sorted_unique(sort_texts(ea), sort_texts(eb));
    }
}

/// Whether line `i` of `ls` is the value of a handle pair (code 5) of the
/// section whose pairs begin at line `k`.
pub open spec fn is_handle_value(ls: Seq<Seq<char>>, k: int, i: int) -> bool {
    k < i && (i - k) % 2 == 1 && ls[i - 1] == seq!['5']
}

/// Whether the DXF texts `a` and `b` are the same line for line (after
/// trimming), but for the values of handles (code 5) inside the ENTITIES
/// section of `a`.
pub open spec fn differ_in_handles_only(a: Seq<char>, b: Seq<char>) -> bool {
    let la = trimmed_lines(a);
    let lb = trimmed_lines(b);
    &&& la.len() == lb.len()
    &&& match find_section_from(la, word_entities(), 0) {
        Some(k) => forall|i: int|
            0 <= i < la.len() ==> la[i] == lb[i] || is_handle_value(la, k, i),
        None => la == lb,
    }
}

/// Two line sequences that agree before line `k` find the same first
/// section that ends its header at `k`.
proof fn lemma_find_section_same(
    la: Seq<Seq<char>>,
    lb: Seq<Seq<char>>,
    name: Seq<char>,
    j: int,
    k: int,
)
    requires
        0 <= j,
        la.len() == lb.len(),
        forall|i: int| 0 <= i < k ==> la[i] == lb[i],
        find_section_from(la, name, j) == Some(k),
    ensures
        find_section_from(lb, name, j) == Some(k),
    decreases la.len() - j,
{
    lemma_find_section_bound(la, name, j);
    if j + 3 < la.len() {
        if la[j] == seq!['0'] && la[j + 1] == word_section() && la[j + 2] == seq!['2'] && la[j
            + 3] == name {
            assert(lb[j] == la[j] && lb[j + 1] == la[j + 1] && lb[j + 2] == la[j + 2] && lb[j + 3]
                == la[j + 3]);
        } else {
            lemma_find_section_bound(la, name, j + 1);
            assert(lb[j] == la[j] && lb[j + 1] == la[j + 1] && lb[j + 2] == la[j + 2] && lb[j + 3]
                == la[j + 3]);
            lemma_find_section_same(la, lb, name, j + 1, k);
        }
    }
}

/// Reading an entity's pairs without handles from a pair boundary gives the
/// same text, and stops at the same pair boundary, in both sequences.
proof fn lemma_groups_same(
    la: Seq<Seq<char>>,
    lb: Seq<Seq<char>>,
    k: int,
    i: int,
    acc: Seq<char>,
)
    requires
        0 <= k <= i,
        (i - k) % 2 == 0,
        la.len() == lb.len(),
        forall|j: int| 0 <= j < la.len() ==> la[j] == lb[j] || is_handle_value(la, k, j),
    ensures
        scan_groups(la, i, acc, block_steps()) == scan_groups(lb, i, acc, block_steps()),
        (scan_groups(la, i, acc, block_steps()).1 - k) % 2 == 0,
    decreases la.len() - i,
{
    if i + 1 < la.len() {
        assert(la[i] == lb[i]);
        if la[i] != seq!['0'] {
            let f = block_steps();
            if la[i] != seq!['5'] {
                assert(la[i + 1] == lb[i + 1]);
            }
            assert(f(acc, la[i], la[i + 1]) == f(acc, lb[i], lb[i + 1]));
            lemma_groups_same(la, lb, k, i + 2, f(acc, la[i], la[i + 1]));
        }
    } else if i < la.len() {
        assert(la[i] == lb[i]);
    }
}

/// From a pair boundary of the section on, both sequences give the same
/// entity texts.
proof fn lemma_blocks_same(la: Seq<Seq<char>>, lb: Seq<Seq<char>>, k: int, i: int)
    requires
        0 <= k <= i,
        (i - k) % 2 == 0,
        la.len() == lb.len(),
        forall|j: int| 0 <= j < la.len() ==> la[j] == lb[j] || is_handle_value(la, k, j),
    ensures
        entity_blocks(la, i) == entity_blocks(lb, i),
    decreases la.len() - i,
{
    if i + 1 < la.len() {
        assert(la[i] == lb[i]);
        if la[i] == seq!['0'] {
            assert(seq!['0'][0] != seq!['5'][0]);
            assert(la[i + 1] == lb[i + 1] || is_handle_value(la, k, i + 1));
            assert(la[i + 1] == lb[i + 1]);
            if la[i + 1] != word_endsec() {
                let h = la[i + 1] + seq!['\n'];
                lemma_scan_groups_bounds(la, i + 2, h, block_steps());
                lemma_groups_same(la, lb, k, i + 2, h);
                let r = scan_groups(la, i + 2, h, block_steps());
                lemma_blocks_same(la, lb, k, r.1);
            }
        } else {
            lemma_blocks_same(la, lb, k, i + 2);
        }
    }
}

/// Normalization ignores handles: two DXF texts that are the same but for
/// the values of the handles (code 5) of their entities have the same
/// entity texts, so they normalize to the same entities.
pub proof fn law_normalize_ignores_handles(a: Seq<char>, b: Seq<char>)
    requires
        differ_in_handles_only(a, b),
    ensures
        spec_entity_blocks(a) == spec_entity_blocks(b),
        sort_texts(spec_entity_blocks(a)) == sort_texts(spec_entity_blocks(b)),
{
    let la = trimmed_lines(a);
    let lb = trimmed_lines(b);
    match find_section_from(la, word_entities(), 0) {
        Some(k) => {
            lemma_find_section_bound(la, word_entities(), 0);
            assert forall|i: int| 0 <= i < k implies la[i] == lb[i] by {
                assert(la[i] == lb[i] || is_handle_value(la, k, i));
            }
            lemma_find_section_same(la, lb, word_entities(), 0, k);
            lemma_blocks_same(la, lb, k, k);
        },
        None => {},
    }
}

} // verus!

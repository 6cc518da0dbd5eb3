//! Comma-separated fields and decimal numerals, stated over `Seq<char>`.

use vstd::prelude::*;

use crate::text::{push_char, slice_chars, trim, trim_chars, views};

verus! {

broadcast use vstd::string::group_string_axioms;

/// Position of the first `c` in `s`, if any.
pub open spec fn char_pos(s: Seq<char>, c: char) -> Option<int>
    decreases s.len(),
{
    if s.len() == 0 {
        None
    } else if s[0] == c {
        Some(0)
    } else {
        match char_pos(s.drop_first(), c) {
            Some(k) => Some(k + 1),
            None => None,
        }
    }
}

/// The pieces of `s` between occurrences of `c`, as `str::split(c)` yields
/// them (the empty text gives one empty piece).
pub open spec fn split_on(s: Seq<char>, c: char) -> Seq<Seq<char>>
    decreases s.len(),
{
    match char_pos(s, c) {
        Some(k) => if 0 <= k < s.len() {
            seq![s.take(k)] + split_on(s.skip(k + 1), c)
        } else {
            seq![s]
        },
        None => seq![s],
    }
}

/// Each piece trimmed.
pub open spec fn trim_each(ps: Seq<Seq<char>>) -> Seq<Seq<char>> {
    ps.map_values(|p: Seq<char>| trim(p))
}

/// The comma-separated fields of a line, each trimmed.
pub open spec fn csv_fields(line: Seq<char>) -> Seq<Seq<char>> {
    trim_each(split_on(line, ','))
}

pub proof fn lemma_char_pos_at(t: Seq<char>, c: char, k: int)
    requires
        0 <= k < t.len(),
        t[k] == c,
        forall|j: int| 0 <= j < k ==> t[j] != c,
    ensures
        char_pos(t, c) == Some(k),
    decreases k,
{
    if k > 0 {
        lemma_char_pos_at(t.drop_first(), c, k - 1);
    }
}

pub proof fn lemma_char_pos_none(t: Seq<char>, c: char)
    requires
        forall|j: int| 0 <= j < t.len() ==> t[j] != c,
    ensures
        char_pos(t, c) is None,
    decreases t.len(),
{
    if t.len() > 0 {
        lemma_char_pos_none(t.drop_first(), c);
    }
}

pub proof fn lemma_char_pos_bounds(t: Seq<char>, c: char)
    ensures
        char_pos(t, c) matches Some(k) ==> 0 <= k < t.len() && t[k] == c && forall|j: int|
            0 <= j < k ==> t[j] != c,
    decreases t.len(),
{
    if t.len() > 0 && t[0] != c {
        lemma_char_pos_bounds(t.drop_first(), c);
        if let Some(k) = char_pos(t, c) {
            assert forall|j: int| 0 <= j < k implies t[j] != c by {
                if j > 0 {
                    assert(t[j] == t.drop_first()[j - 1]);
                }
            }
        }
    }
}

/// The first position of `c` in `v`, if any.
pub fn find_char_pos(v: &[char], c: char) -> (r: Option<usize>)
    ensures
        r matches Some(k) ==> char_pos(v@, c) == Some(k as int),
        r is None ==> char_pos(v@, c) is None,
{
    let mut i: usize = 0;
    while i < v.len()
        invariant
            i <= v@.len(),
            forall|j: int| 0 <= j < i ==> v@[j] != c,
        decreases v@.len() - i,
    {
        if v[i] == c {
            proof {
                lemma_char_pos_at(v@, c, i as int);
            }
            return Some(i);
        }
        i += 1;
    }
    proof {
        lemma_char_pos_none(v@, c);
    }
    None
}

/// The pieces of `v` between occurrences of `c` (as `str::split`).
pub fn split_chars(v: &[char], c: char) -> (r: Vec<Vec<char>>)
    ensures
        views(r@) == split_on(v@, c),
{
    let n = v.len();
    let mut out: Vec<Vec<char>> = Vec::new();
    let mut start: usize = 0;
    let mut i: usize = 0;
    assert(v@.skip(0) =~= v@);
    assert(views(out@) + split_on(v@, c) =~= split_on(v@, c));
    while i < n
        invariant
            start <= i <= n == v@.len(),
            views(out@) + split_on(v@.skip(start as int), c) == split_on(v@, c),
            forall|k: int| start <= k < i ==> v@[k] != c,
        decreases n - i,
    {
        if v[i] == c {
            let ghost t = v@.skip(start as int);
            proof {
                lemma_char_pos_at(t, c, i - start);
                assert(t.skip(i - start + 1) =~= v@.skip(i + 1));
                assert(t.take(i - start) =~= v@.subrange(start as int, i as int));
            }
            let piece = slice_chars(v, start, i);
            let ghost old_out = out@;
            out.push(piece);
            assert(views(out@) =~= views(old_out).push(piece@));
            assert(views(out@) + split_on(v@.skip(i + 1), c) =~= views(old_out) + (seq![t.take(
                i - start,
            )] + split_on(t.skip(i - start + 1), c)));
            start = i + 1;
        }
        i += 1;
    }
    let ghost t = v@.skip(start as int);
    proof {
        lemma_char_pos_none(t, c);
    }
    let piece = slice_chars(v, start, n);
    assert(piece@ =~= t);
    let ghost old_out = out@;
    out.push(piece);
    assert(views(out@) =~= views(old_out) + seq![t]);
    out
}

/// The comma-separated fields of `line`, each trimmed.
pub fn fields_of(line: &[char]) -> (r: Vec<Vec<char>>)
    ensures
        views(r@) == csv_fields(line@),
{
    let pieces = split_chars(line, ',');
    let mut out: Vec<Vec<char>> = Vec::new();
    let mut i: usize = 0;
    while i < pieces.len()
        invariant
            i <= pieces@.len(),
            views(pieces@) == split_on(line@, ','),
            views(out@) == trim_each(views(pieces@).take(i as int)),
        decreases pieces@.len() - i,
    {
        let t = trim_chars(pieces[i].as_slice());
        let ghost old_out = out@;
        out.push(t);
        assert(views(out@) =~= views(old_out).push(t@));
        assert(views(pieces@).take(i + 1) =~= views(pieces@).take(i as int).push(
            pieces@[i as int]@,
        ));
        assert(trim_each(views(pieces@).take(i + 1)) =~= trim_each(views(pieces@).take(i as int)).push(
            trim(pieces@[i as int]@),
        ));
        i += 1;
    }
    assert(views(pieces@).take(pieces@.len() as int) =~= views(pieces@));
    out
}

/// The numeral of a decimal digit.
pub open spec fn digit_char(d: int) -> char {
    if d == 0 {
        '0'
    } else if d == 1 {
        '1'
    } else if d == 2 {
        '2'
    } else if d == 3 {
        '3'
    } else if d == 4 {
        '4'
    } else if d == 5 {
        '5'
    } else if d == 6 {
        '6'
    } else if d == 7 {
        '7'
    } else if d == 8 {
        '8'
    } else {
        '9'
    }
}

/// The decimal numeral of `n`, as `{}` formats an unsigned integer.
pub open spec fn decimal(n: nat) -> Seq<char>
    decreases n,
{
    if n < 10 {
        seq![digit_char(n as int)]
    } else {
        decimal(n / 10).push(digit_char((n % 10) as int))
    }
}

fn digit_of(d: usize) -> (c: char)
    requires
        d < 10,
    ensures
        c == digit_char(d as int),
{
    if d == 0 {
        '0'
    } else if d == 1 {
        '1'
    } else if d == 2 {
        '2'
    } else if d == 3 {
        '3'
    } else if d == 4 {
        '4'
    } else if d == 5 {
        '5'
    } else if d == 6 {
        '6'
    } else if d == 7 {
        '7'
    } else if d == 8 {
        '8'
    } else {
        '9'
    }
}

/// Appends the decimal numeral of `n` to `s`.
pub fn push_decimal(s: &mut String, n: usize)
    ensures
        final(s)@ == old(s)@ + decimal(n as nat),
    decreases n,
{
    if n < 10 {
        push_char(s, digit_of(n));
        assert(old(s)@.push(digit_char(n as int)) =~= old(s)@ + decimal(n as nat));
    } else {
        push_decimal(s, n / 10);
        push_char(s, digit_of(n % 10));
        assert(old(s)@ + decimal((n / 10) as nat) + seq![digit_char((n % 10) as int)]
            =~= old(s)@ + decimal(n as nat));
    }
}

/// The decimal numeral of `n`.
pub fn decimal_text(n: usize) -> (r: String)
    ensures
        r@ == decimal(n as nat),
{
    let mut s = String::new();
    push_decimal(&mut s, n);
    assert(Seq::<char>::empty() + decimal(n as nat) =~= decimal(n as nat));
    s
}

/// The numeral of a hexadecimal digit (upper case).
pub open spec fn hex_digit(d: int) -> char {
    if d < 10 {
        digit_char(d)
    } else if d == 10 {
        'A'
    } else if d == 11 {
        'B'
    } else if d == 12 {
        'C'
    } else if d == 13 {
        'D'
    } else if d == 14 {
        'E'
    } else {
        'F'
    }
}

/// The hexadecimal numeral of `n` (upper case, as `{:X}` formats it).
pub open spec fn hex_text(n: nat) -> Seq<char>
    decreases n,
{
    if n < 16 {
        seq![hex_digit(n as int)]
    } else {
        hex_text(n / 16).push(hex_digit((n % 16) as int))
    }
}

fn hex_digit_of(d: u128) -> (c: char)
    requires
        d < 16,
    ensures
        c == hex_digit(d as int),
{
    if d < 10 {
        digit_of(d as usize)
    } else if d == 10 {
        'A'
    } else if d == 11 {
        'B'
    } else if d == 12 {
        'C'
    } else if d == 13 {
        'D'
    } else if d == 14 {
        'E'
    } else {
        'F'
    }
}

/// Appends the hexadecimal numeral of `n` to `s`.
pub fn push_hex(s: &mut String, n: u128)
    ensures
        final(s)@ == old(s)@ + hex_text(n as nat),
    decreases n,
{
    if n < 16 {
        push_char(s, hex_digit_of(n));
        assert(old(s)@.push(hex_digit(n as int)) =~= old(s)@ + hex_text(n as nat));
    } else {
        push_hex(s, n / 16);
        push_char(s, hex_digit_of(n % 16));
        assert(old(s)@ + hex_text((n / 16) as nat) + seq![hex_digit((n % 16) as int)]
            =~= old(s)@ + hex_text(n as nat));
    }
}

/// The number a hexadecimal digit stands for.
pub open spec fn hex_digit_value(c: char) -> int {
    if '0' <= c <= '9' {
        c as int - '0' as int
    } else {
        c as int - 'A' as int + 10
    }
}

/// The number an upper-case hexadecimal numeral stands for.
pub open spec fn hex_value(s: Seq<char>) -> int
    decreases s.len(),
{
    if s.len() == 0 {
        0
    } else {
        hex_value(s.drop_last()) * 16 + hex_digit_value(s.last())
    }
}

/// Reading a numeral gives back its number.
pub proof fn lemma_hex_value(n: nat)
    ensures
        hex_value(hex_text(n)) == n,
    decreases n,
{
    let s = hex_text(n);
    if n < 16 {
        let d = n as int;
        assert(s.drop_last() =~= Seq::<char>::empty());
        assert(s.last() == hex_digit(d));
        assert(hex_value(s) == hex_value(s.drop_last()) * 16 + hex_digit_value(s.last()));
        assert(hex_digit_value(hex_digit(d)) == d) by {
            assert(d == 0 || d == 1 || d == 2 || d == 3 || d == 4 || d == 5 || d == 6 || d == 7 || d
                == 8 || d == 9 || d == 10 || d == 11 || d == 12 || d == 13 || d == 14 || d == 15);
        }
    } else {
        lemma_hex_value(n / 16);
        let d = (n % 16) as int;
        assert(s.drop_last() =~= hex_text(n / 16));
        assert(hex_digit_value(hex_digit(d)) == d) by {
            assert(d == 0 || d == 1 || d == 2 || d == 3 || d == 4 || d == 5 || d == 6 || d == 7 || d
                == 8 || d == 9 || d == 10 || d == 11 || d == 12 || d == 13 || d == 14 || d == 15);
        }
        assert(s.last() == hex_digit(d));
        assert(hex_value(s) == hex_value(s.drop_last()) * 16 + hex_digit_value(s.last()));
        assert((n / 16) * 16 + n % 16 == n) by (nonlinear_arith);
    }
}

/// Distinct numbers have distinct numerals, so handles numbered 1, 2, 3,
/// ... are unique.
pub proof fn law_hex_text_injective(m: nat, n: nat)
    requires
        hex_text(m) == hex_text(n),
    ensures
        m == n,
{
    lemma_hex_value(m);
    lemma_hex_value(n);
}

/// The characters of a hexadecimal numeral are digits or `A`..`F`.
pub proof fn lemma_hex_text(n: nat)
    ensures
        hex_text(n).len() > 0,
        forall|i: int|
            0 <= i < hex_text(n).len() ==> 0x30 <= (#[trigger] hex_text(n)[i] as u32) <= 0x46,
    decreases n,
{
    let s = hex_text(n);
    if n < 16 {
        let d = n as int;
        assert(0x30 <= (hex_digit(d) as u32) <= 0x46) by {
            assert(d == 0 || d == 1 || d == 2 || d == 3 || d == 4 || d == 5 || d == 6 || d == 7 || d
                == 8 || d == 9 || d == 10 || d == 11 || d == 12 || d == 13 || d == 14 || d == 15);
        }
    } else {
        lemma_hex_text(n / 16);
        let h = hex_text(n / 16);
        let d = (n % 16) as int;
        assert(0x30 <= (hex_digit(d) as u32) <= 0x46) by {
            assert(d == 0 || d == 1 || d == 2 || d == 3 || d == 4 || d == 5 || d == 6 || d == 7 || d
                == 8 || d == 9 || d == 10 || d == 11 || d == 12 || d == 13 || d == 14 || d == 15);
        }
        assert forall|i: int| 0 <= i < s.len() implies 0x30 <= (#[trigger] s[i] as u32) <= 0x46 by {
            if i < h.len() {
                assert(s[i] == h[i]);
            }
        }
    }
}

} // verus!

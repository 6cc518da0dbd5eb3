//! Number literals: the grammar that `f64::from_str` accepts, and the
//! value of decimal integer literals as `i32::from_str` reads them.

use vstd::prelude::*;

verus! {

pub open spec fn is_digit(c: char) -> bool {
    '0' <= c <= '9'
}

pub open spec fn all_digits(s: Seq<char>) -> bool {
    forall|i: int| 0 <= i < s.len() ==> is_digit(#[trigger] s[i])
}

/// ASCII lower-casing of one character.
pub open spec fn ascii_lower(c: char) -> char {
    if 'A' <= c <= 'Z' {
        ((c as u32) + 32) as char
    } else {
        c
    }
}

pub open spec fn ascii_lower_seq(s: Seq<char>) -> Seq<char> {
    s.map_values(|c: char| ascii_lower(c))
}

pub open spec fn is_sign(c: char) -> bool {
    c == '+' || c == '-'
}

/// Number of leading characters of `s` that are digits.
pub open spec fn lead_digits(s: Seq<char>) -> nat
    decreases s.len(),
{
    if s.len() > 0 && is_digit(s[0]) {
        1 + lead_digits(s.drop_first())
    } else {
        0
    }
}

/// Number of leading characters of `s` that are digits or `.`.
pub open spec fn lead_mantissa(s: Seq<char>) -> nat
    decreases s.len(),
{
    if s.len() > 0 && (is_digit(s[0]) || s[0] == '.') {
        1 + lead_mantissa(s.drop_first())
    } else {
        0
    }
}

/// `Digit+ | Digit+ '.' Digit* | Digit* '.' Digit+`
pub open spec fn is_mantissa(t: Seq<char>) -> bool {
    let d = lead_digits(t);
    ||| d == t.len() && d > 0
    ||| d < t.len() && t[d as int] == '.' && all_digits(t.skip(d + 1 as int)) && t.len() >= 2
}

/// `'e' Sign? Digit+` (the `e` in either case)
pub open spec fn is_exponent(t: Seq<char>) -> bool {
    &&& t.len() >= 2
    &&& ascii_lower(t[0]) == 'e'
    &&& if is_sign(t[1]) {
        t.len() >= 3 && all_digits(t.skip(2))
    } else {
        all_digits(t.skip(1))
    }
}

/// `Number ::= Mantissa Exp?`
pub open spec fn is_decimal(s: Seq<char>) -> bool {
    let m = lead_mantissa(s);
    &&& is_mantissa(s.take(m as int))
    &&& (m == s.len() || is_exponent(s.skip(m as int)))
}

/// The grammar of `f64::from_str`: an optional sign, then `inf`,
/// `infinity`, `nan` (in any case) or a decimal number.
pub open spec fn is_float_literal(s: Seq<char>) -> bool {
    let body = if s.len() > 0 && is_sign(s[0]) {
        s.drop_first()
    } else {
        s
    };
    let low = ascii_lower_seq(body);
    ||| low == seq!['i', 'n', 'f']
    ||| low == seq!['i', 'n', 'f', 'i', 'n', 'i', 't', 'y']
    ||| low == seq!['n', 'a', 'n']
    ||| is_decimal(body)
}

pub open spec fn digit_value(c: char) -> int {
    (c as u32) - ('0' as u32)
}

/// Value of a string of decimal digits.
pub open spec fn digits_value(s: Seq<char>) -> int
    decreases s.len(),
{
    if s.len() == 0 {
        0
    } else {
        10 * digits_value(s.drop_last()) + digit_value(s.last())
    }
}

/// The integer an integer literal denotes: an optional `+` or `-`, then at
/// least one digit.
pub open spec fn int_literal_value(s: Seq<char>) -> Option<int> {
    let neg = s.len() > 0 && s[0] == '-';
    let body = if s.len() > 0 && is_sign(s[0]) {
        s.drop_first()
    } else {
        s
    };
    if body.len() > 0 && all_digits(body) {
        Some(if neg { -digits_value(body) } else { digits_value(body) })
    } else {
        None
    }
}

/// What `<i32 as FromStr>::from_str` returns for `s`.
pub open spec fn spec_parse_i32(s: Seq<char>) -> Option<i32> {
    match int_literal_value(s) {
        Some(v) => if i32::MIN <= v <= i32::MAX {
            Some(v as i32)
        } else {
            None
        },
        None => None,
    }
}

/// `s.parse::<i32>().unwrap_or(default)`
pub open spec fn i32_or(s: Seq<char>, default: i32) -> i32 {
    match spec_parse_i32(s) {
        Some(v) => v,
        None => default,
    }
}

pub fn is_ascii_digit(c: char) -> (b: bool)
    ensures
        b == is_digit(c),
{
    '0' <= c && c <= '9'
}

/// Whether `c`, lower-cased, is `w`.
fn lower_is(c: char, w: char) -> (b: bool)
    ensures
        b == (ascii_lower(c) == w),
{
    if 'A' <= c && c <= 'Z' {
        (c as u32) + 32 == (w as u32)
    } else {
        c == w
    }
}

proof fn lemma_lead_digits_skip(s: Seq<char>, i: int)
    requires
        0 <= i <= s.len(),
        forall|k: int| 0 <= k < i ==> is_digit(#[trigger] s[k]),
    ensures
        lead_digits(s) == i + lead_digits(s.skip(i)),
    decreases i,
{
    if i > 0 {
        assert(s.drop_first().skip(i - 1) =~= s.skip(i));
        lemma_lead_digits_skip(s.drop_first(), i - 1);
    } else {
        assert(s.skip(0) =~= s);
    }
}

proof fn lemma_lead_mantissa_skip(s: Seq<char>, i: int)
    requires
        0 <= i <= s.len(),
        forall|k: int| 0 <= k < i ==> is_digit(#[trigger] s[k]) || s[k] == '.',
    ensures
        lead_mantissa(s) == i + lead_mantissa(s.skip(i)),
    decreases i,
{
    if i > 0 {
        assert(s.drop_first().skip(i - 1) =~= s.skip(i));
        lemma_lead_mantissa_skip(s.drop_first(), i - 1);
    } else {
        assert(s.skip(0) =~= s);
    }
}

proof fn lemma_lead_digits_bound(s: Seq<char>)
    ensures
        lead_digits(s) <= s.len(),
        forall|k: int| 0 <= k < lead_digits(s) ==> is_digit(#[trigger] s[k]),
        lead_digits(s) < s.len() ==> !is_digit(s[lead_digits(s) as int]),
    decreases s.len(),
{
    if s.len() > 0 && is_digit(s[0]) {
        lemma_lead_digits_bound(s.drop_first());
        assert forall|k: int| 0 <= k < lead_digits(s) implies is_digit(#[trigger] s[k]) by {
            if k > 0 {
                assert(s[k] == s.drop_first()[k - 1]);
            }
        }
    }
}

proof fn lemma_all_digits_iff(s: Seq<char>)
    ensures
        all_digits(s) <==> lead_digits(s) == s.len(),
{
    lemma_lead_digits_bound(s);
}

/// Number of leading digits of `s[from..]`.
fn count_digits(s: &[char], from: usize) -> (n: usize)
    requires
        from <= s@.len(),
    ensures
        from + n <= s@.len(),
        n == lead_digits(s@.skip(from as int)),
{
    let mut i = from;
    while i < s.len() && is_ascii_digit(s[i])
        invariant
            from <= i <= s@.len(),
            forall|k: int| from <= k < i ==> is_digit(#[trigger] s@[k]),
        decreases s@.len() - i,
    {
        i += 1;
    }
    proof {
        let t = s@.skip(from as int);
        assert forall|k: int| 0 <= k < i - from implies is_digit(#[trigger] t[k]) by {
            assert(t[k] == s@[from + k]);
        }
        lemma_lead_digits_skip(t, i - from);
        assert(t.skip(i - from) =~= s@.skip(i as int));
    }
    i - from
}

/// Whether every character of `s[from..]` is a digit.
fn digits_to_end(s: &[char], from: usize) -> (b: bool)
    requires
        from <= s@.len(),
    ensures
        b == all_digits(s@.skip(from as int)),
{
    let n = count_digits(s, from);
    proof {
        lemma_all_digits_iff(s@.skip(from as int));
    }
    n == s.len() - from
}

/// Number of leading digits-or-dots of `s`.
fn count_mantissa(s: &[char]) -> (n: usize)
    ensures
        n <= s@.len(),
        n == lead_mantissa(s@),
{
    let mut i: usize = 0;
    while i < s.len() && (is_ascii_digit(s[i]) || s[i] == '.')
        invariant
            i <= s@.len(),
            forall|k: int| 0 <= k < i ==> is_digit(#[trigger] s@[k]) || s@[k] == '.',
        decreases s@.len() - i,
    {
        i += 1;
    }
    proof {
        lemma_lead_mantissa_skip(s@, i as int);
    }
    i
}

fn mantissa_ok(t: &[char]) -> (b: bool)
    ensures
        b == is_mantissa(t@),
{
    let d = count_digits(t, 0);
    assert(t@.skip(0) =~= t@);
    if d == t.len() {
        d > 0
    } else if t[d] == '.' {
        digits_to_end(t, d + 1) && t.len() >= 2
    } else {
        false
    }
}

fn exponent_ok(t: &[char]) -> (b: bool)
    ensures
        b == is_exponent(t@),
{
    if t.len() < 2 || !lower_is(t[0], 'e') {
        return false;
    }
    if t[1] == '+' || t[1] == '-' {
        t.len() >= 3 && digits_to_end(t, 2)
    } else {
        digits_to_end(t, 1)
    }
}

/// Whether `s`, ASCII lower-cased, equals `word`.
pub(crate) fn lower_eq(s: &[char], word: &[char]) -> (b: bool)
    ensures
        b == (ascii_lower_seq(s@) == word@),
{
    if s.len() != word.len() {
        assert(ascii_lower_seq(s@).len() != word@.len());
        return false;
    }
    let mut i: usize = 0;
    while i < word.len()
        invariant
            s@.len() == word@.len(),
            i <= word@.len(),
            forall|k: int| 0 <= k < i ==> ascii_lower(s@[k]) == word@[k],
        decreases word@.len() - i,
    {
        if !lower_is(s[i], word[i]) {
            assert(ascii_lower_seq(s@)[i as int] != word@[i as int]);
            return false;
        }
        i += 1;
    }
    assert(ascii_lower_seq(s@) =~= word@);
    true
}

/// Whether `s` is a literal that `f64::from_str` accepts.
pub fn float_literal(s: &[char]) -> (b: bool)
    ensures
        b == is_float_literal(s@),
{
    let from: usize = if s.len() > 0 && (s[0] == '+' || s[0] == '-') {
        1
    } else {
        0
    };
    let body = crate::text::slice_chars(s, from, s.len());
    assert(from == 1 ==> body@ =~= s@.drop_first());
    assert(from == 0 ==> body@ =~= s@);
    let inf = ['i', 'n', 'f'];
    let infinity = ['i', 'n', 'f', 'i', 'n', 'i', 't', 'y'];
    let nan = ['n', 'a', 'n'];
    assert(inf@ =~= seq!['i', 'n', 'f']);
    assert(infinity@ =~= seq!['i', 'n', 'f', 'i', 'n', 'i', 't', 'y']);
    assert(nan@ =~= seq!['n', 'a', 'n']);
    if lower_eq(&body, &inf) || lower_eq(&body, &infinity) || lower_eq(&body, &nan) {
        return true;
    }
    let m = count_mantissa(&body);
    let mant = crate::text::slice_chars(&body, 0, m);
    assert(mant@ =~= body@.take(m as int));
    let mant_good = mantissa_ok(&mant);
    if m == body.len() {
        mant_good
    } else {
        let rest = crate::text::slice_chars(&body, m, body.len());
        assert(rest@ =~= body@.skip(m as int));
        mant_good && exponent_ok(&rest)
    }
}

proof fn lemma_digits_value_nonneg(s: Seq<char>)
    requires
        all_digits(s),
    ensures
        digits_value(s) >= 0,
    decreases s.len(),
{
    if s.len() > 0 {
        assert(all_digits(s.drop_last()));
        lemma_digits_value_nonneg(s.drop_last());
        assert(is_digit(s[s.len() - 1]));
    }
}

/// Appending digits never makes the value smaller.
proof fn lemma_digits_value_grows(s: Seq<char>, i: int)
    requires
        all_digits(s),
        0 <= i <= s.len(),
    ensures
        digits_value(s.take(i)) <= digits_value(s),
    decreases s.len() - i,
{
    if i < s.len() {
        lemma_digits_value_grows(s, i + 1);
        assert(s.take(i + 1).drop_last() =~= s.take(i));
        assert(all_digits(s.take(i)));
        lemma_digits_value_nonneg(s.take(i));
        assert(is_digit(s[i]));
    } else {
        assert(s.take(i) =~= s);
    }
}

/// `s.parse::<i32>()` (an optional sign, then decimal digits, in range).
pub fn parse_i32(s: &[char]) -> (r: Option<i32>)
    ensures
        r == spec_parse_i32(s@),
{
    let neg = s.len() > 0 && s[0] == '-';
    let from: usize = if s.len() > 0 && (s[0] == '+' || s[0] == '-') {
        1
    } else {
        0
    };
    let ghost body = s@.skip(from as int);
    assert(from == 1 ==> body =~= s@.drop_first());
    assert(from == 0 ==> body =~= s@);
    if from == s.len() || !digits_to_end(s, from) {
        return None;
    }
    let mut acc: i64 = 0;
    let mut big = false;
    let mut i = from;
    while i < s.len()
        invariant
            from <= i <= s@.len(),
            body == s@.skip(from as int),
            all_digits(body),
            !big ==> acc == digits_value(body.take(i - from)),
            !big ==> 0 <= acc <= 0x8000_0000,
            big ==> digits_value(body.take(i - from)) > 0x8000_0000,
        decreases s@.len() - i,
    {
        let ghost k = i - from;
        proof {
            assert(body.take(k + 1).drop_last() =~= body.take(k));
            assert(body.take(k + 1).last() == s@[i as int]);
            assert(is_digit(body[k]));
            lemma_digits_value_nonneg(body.take(k));
        }
        if !big {
            let dv = (s[i] as u32 - '0' as u32) as i64;
            acc = acc * 10 + dv;
            if acc > 0x8000_0000 {
                big = true;
            }
        }
        i += 1;
    }
    assert(body.take(i - from) =~= body);
    proof {
        lemma_digits_value_nonneg(body);
    }
    if big {
        return None;
    }
    let v: i64 = if neg {
        -acc
    } else {
        acc
    };
    if v < i32::MIN as i64 || v > i32::MAX as i64 {
        None
    } else {
        Some(v as i32)
    }
}

/// `s.parse::<i32>().unwrap_or(default)`
pub fn parse_i32_or(s: &[char], default: i32) -> (r: i32)
    ensures
        r == i32_or(s@, default),
{
    match parse_i32(s) {
        Some(v) => v,
        None => default,
    }
}

/// A number as written in text: a literal that `f64::from_str` accepts,
/// kept verbatim so that its value is exactly what the text says.
#[derive(Debug)]
pub struct NumText {
    text: String,
}

impl View for NumText {
    type V = Seq<char>;

    closed spec fn view(&self) -> Seq<char> {
        self.text@
    }
}

/// The literal `0`.
pub open spec fn zero_text() -> Seq<char> {
    seq!['0']
}

/// The literal `1`.
pub open spec fn one_text() -> Seq<char> {
    seq!['1']
}

/// `v` if it is a float literal, else `default` (`v.parse().unwrap_or(..)`).
pub open spec fn num_or(v: Seq<char>, default: Seq<char>) -> Seq<char> {
    if is_float_literal(v) {
        v
    } else {
        default
    }
}

pub proof fn lemma_zero_one_literals()
    ensures
        is_float_literal(zero_text()),
        is_float_literal(one_text()),
{
    let z = zero_text();
    let o = one_text();
    assert(z.drop_first() =~= Seq::<char>::empty());
    assert(o.drop_first() =~= Seq::<char>::empty());
    assert(lead_mantissa(Seq::<char>::empty()) == 0);
    assert(lead_digits(Seq::<char>::empty()) == 0);
    assert(is_digit(z[0]) && is_digit(o[0]));
    assert(lead_mantissa(z) == 1);
    assert(lead_mantissa(o) == 1);
    assert(z.take(1) =~= z);
    assert(o.take(1) =~= o);
    assert(lead_digits(z) == 1);
    assert(lead_digits(o) == 1);
    assert(ascii_lower_seq(z)[0] == '0');
    assert(ascii_lower_seq(o)[0] == '1');
}

impl NumText {
    #[verifier::type_invariant]
    spec fn well_formed(self) -> bool {
        is_float_literal(self.text@)
    }

    /// The literal `v`, if `v` is one.
    pub fn from_chars(v: &[char]) -> (r: Option<NumText>)
        ensures
            r is Some <==> is_float_literal(v@),
            r matches Some(n) ==> n@ == v@,
    {
        if float_literal(v) {
            Some(NumText { text: crate::text::string_of(v) })
        } else {
            None
        }
    }

    /// The literal `s`, if `s` is one (`s.parse::<f64>().is_ok()`).
    pub fn parse(s: &str) -> (r: Option<NumText>)
        ensures
            r is Some <==> is_float_literal(s@),
            r matches Some(n) ==> n@ == s@,
    {
        let v = crate::text::chars_of(s);
        Self::from_chars(&v)
    }

    /// `v` if it is a literal, else a copy of `default`.
    pub fn from_chars_or(v: &[char], default: &NumText) -> (r: NumText)
        ensures
            r@ == num_or(v@, default@),
    {
        match Self::from_chars(v) {
            Some(n) => n,
            None => default.copy(),
        }
    }

    pub fn zero() -> (r: NumText)
        ensures
            r@ == zero_text(),
    {
        proof {
            lemma_zero_one_literals();
        }
        let t = crate::text::string_of(&['0']);
        assert(t@ =~= zero_text());
        NumText { text: t }
    }

    pub fn one() -> (r: NumText)
        ensures
            r@ == one_text(),
    {
        proof {
            lemma_zero_one_literals();
        }
        let t = crate::text::string_of(&['1']);
        assert(t@ =~= one_text());
        NumText { text: t }
    }

    /// The literal's text.
    pub fn as_str(&self) -> (r: &str)
        ensures
            r@ == self@,
            is_float_literal(r@),
    {
        proof {
            use_type_invariant(self);
        }
        self.text.as_str()
    }

    /// A copy of the literal.
    pub fn copy(&self) -> (r: NumText)
        ensures
            r@ == self@,
    {
        proof {
            use_type_invariant(self);
        }
        NumText { text: self.text.clone() }
    }
}

impl Clone for NumText {
    fn clone(&self) -> (r: NumText)
        ensures
            r@ == self@,
    {
        self.copy()
    }
}

} // verus!

//! Typed values carried by argument nodes, how they are rendered, and which
//! inputs parse as each kind.
use vstd::prelude::*;
use crate::text::{eq_ignore_ascii_case, eq_ignore_case, find_first, first_of};

verus! {

/// A value of one of three kinds, either concrete or standing for any value
/// of its kind. A 32-bit float is held as the text that renders it.
pub enum NodeData {
    U8(Option<u8>),
    F32(Option<String>),
    Text(Option<String>),
}

/// The character of decimal digit `d`.
pub open spec fn digit_char(d: int) -> char {
    "0123456789"@[d]
}

/// Decimal rendering of `v`, without leading zeros.
pub open spec fn decimal(v: u8) -> Seq<char> {
    if v < 10 {
        seq![digit_char(v as int)]
    } else if v < 100 {
        seq![digit_char((v / 10) as int), digit_char((v % 10) as int)]
    } else {
        seq![digit_char((v / 100) as int), digit_char(((v / 10) % 10) as int), digit_char((v % 10) as int)]
    }
}

/// `c` is an ASCII decimal digit.
pub open spec fn is_digit(c: char) -> bool {
    '0' <= c && c <= '9'
}

/// Every character of `s` is a decimal digit.
pub open spec fn all_digits(s: Seq<char>) -> bool {
    forall|i: int| 0 <= i < s.len() ==> is_digit(s[i])
}

/// The number that the decimal digits `s` spell.
pub open spec fn digits_value(s: Seq<char>) -> nat
    decreases s.len(),
{
    if s.len() == 0 {
        0
    } else {
        digits_value(s.drop_last()) * 10 + ((s.last() as u32) - ('0' as u32)) as nat
    }
}

/// `s` without its first character where that is `+` or `-`.
pub open spec fn strip_sign(s: Seq<char>) -> Seq<char> {
    if s.len() > 0 && (s[0] == '+' || s[0] == '-') {
        s.drop_first()
    } else {
        s
    }
}

/// `s` without its first character where that is `+`.
pub open spec fn strip_plus(s: Seq<char>) -> Seq<char> {
    if s.len() > 0 && s[0] == '+' {
        s.drop_first()
    } else {
        s
    }
}

/// `s` parses as an unsigned byte: an optional `+`, then one or more decimal
/// digits whose value is at most 255.
pub open spec fn parses_as_u8(s: Seq<char>) -> bool {
    let d = strip_plus(s);
    d.len() > 0 && all_digits(d) && digits_value(d) <= 255
}

/// `s` is one or more decimal digits after an optional sign.
pub open spec fn signed_digits(s: Seq<char>) -> bool {
    let d = strip_sign(s);
    d.len() > 0 && all_digits(d)
}

/// `m` is the digits of a decimal number, with at most one point and at
/// least one digit.
pub open spec fn is_mantissa(m: Seq<char>) -> bool {
    let p = first_of(m, '.', '.') as int;
    if p == m.len() {
        m.len() > 0 && all_digits(m)
    } else {
        m.len() >= 2 && all_digits(m.subrange(0, p)) && all_digits(m.subrange(p + 1, m.len() as int))
    }
}

/// `u` is an unsigned decimal number: a mantissa, then optionally `e` or `E`
/// and a signed exponent.
pub open spec fn is_decimal_number(u: Seq<char>) -> bool {
    let k = first_of(u, 'e', 'E') as int;
    is_mantissa(u.subrange(0, k)) && (k == u.len() || signed_digits(u.subrange(k + 1, u.len() as int)))
}

/// `s` parses as a 32-bit float: an optional sign, then `inf`, `infinity` or
/// `nan` in any case, or a decimal number.
pub open spec fn parses_as_f32(s: Seq<char>) -> bool {
    let u = strip_sign(s);
    eq_ignore_ascii_case(u, "inf"@) || eq_ignore_ascii_case(u, "infinity"@) || eq_ignore_ascii_case(
        u,
        "nan"@,
    ) || is_decimal_number(u)
}

impl NodeData {
    /// The label that stands for any value of this kind.
    pub open spec fn kind_label(self) -> Seq<char> {
        match self {
            NodeData::U8(_) => "Any u8"@,
            NodeData::F32(_) => "Any f32"@,
            NodeData::Text(_) => "Any String"@,
        }
    }

    /// The value's own rendering where it is concrete, else the kind's label.
    pub open spec fn representative(self) -> Seq<char> {
        match self {
            NodeData::U8(Some(v)) => decimal(v),
            NodeData::F32(Some(t)) => t@,
            NodeData::Text(Some(t)) => t@,
            _ => self.kind_label(),
        }
    }

    /// The value is concrete.
    pub open spec fn is_concrete(self) -> bool {
        match self {
            NodeData::U8(v) => v is Some,
            NodeData::F32(v) => v is Some,
            NodeData::Text(v) => v is Some,
        }
    }

    /// `s` parses as a value of this kind (any text parses as text).
    pub open spec fn accepts(self, s: Seq<char>) -> bool {
        match self {
            NodeData::U8(_) => parses_as_u8(s),
            NodeData::F32(_) => parses_as_f32(s),
            NodeData::Text(_) => true,
        }
    }

    /// Returns the label that stands for any value of this kind.
    pub fn kind_label_string(&self) -> (r: String)
        ensures
            r@ == self.kind_label(),
    {
        match self {
            NodeData::U8(_) => String::from_str("Any u8"),
            NodeData::F32(_) => String::from_str("Any f32"),
            NodeData::Text(_) => String::from_str("Any String"),
        }
    }

    /// Returns the value's own rendering where it is concrete, else
    /// `Any <kind>`.
    pub fn representative_string(&self) -> (r: String)
        ensures
            r@ == self.representative(),
    {
        match self {
            NodeData::U8(Some(v)) => u8_text(*v),
            NodeData::F32(Some(t)) => t.clone(),
            NodeData::Text(Some(t)) => t.clone(),
            _ => self.kind_label_string(),
        }
    }

    /// Returns whether `s` parses as a value of this kind.
    pub fn parses(&self, s: &str) -> (r: bool)
        ensures
            r == self.accepts(s@),
    {
        match self {
            NodeData::U8(_) => parse_u8_ok(s),
            NodeData::F32(_) => parse_f32_ok(s),
            NodeData::Text(_) => true,
        }
    }
}

/// The empty input parses as text and as no numeric kind.
pub proof fn lemma_empty_parses_only_as_text(d: NodeData)
    ensures
        d.accepts(Seq::<char>::empty()) <==> d is Text,
{
    reveal_strlit("inf");
    reveal_strlit("infinity");
    reveal_strlit("nan");
    let e = Seq::<char>::empty();
    assert(strip_sign(e) == e);
    assert(strip_plus(e) == e);
    assert(first_of(e, 'e', 'E') == 0);
    assert(e.subrange(0, 0) =~= e);
    assert(first_of(e, '.', '.') == 0);
}

/// Appends the digit `d` to `out`.
fn push_digit(out: &mut String, d: u8)
    requires
        d < 10,
    ensures
        final(out)@ == old(out)@.push(digit_char(d as int)),
{
    let digits = "0123456789";
    proof {
        reveal_strlit("0123456789");
    }
    let one = digits.substring_char(d as usize, (d + 1) as usize);
    out.append(one);
    assert(final(out)@ =~= old(out)@.push(digit_char(d as int)));
}

/// Returns the decimal rendering of `v`.
fn u8_text(v: u8) -> (r: String)
    ensures
        r@ == decimal(v),
{
    let mut out = String::new();
    if v >= 100 {
        push_digit(&mut out, v / 100);
    }
    if v >= 10 {
        push_digit(&mut out, (v / 10) % 10);
    }
    push_digit(&mut out, v % 10);
    assert(out@ =~= decimal(v));
    out
}

/// Adding a digit at the end multiplies the value by ten and adds the digit.
proof fn lemma_digits_value_push(s: Seq<char>, c: char)
    ensures
        digits_value(s.push(c)) == digits_value(s) * 10 + ((c as u32) - ('0' as u32)) as nat,
{
    assert(s.push(c).drop_last() =~= s);
}

/// A prefix of a run of digits has no larger value.
proof fn lemma_digits_value_prefix(s: Seq<char>, j: int)
    requires
        0 <= j <= s.len(),
        all_digits(s),
    ensures
        digits_value(s.subrange(0, j)) <= digits_value(s),
    decreases s.len() - j,
{
    if j < s.len() {
        lemma_digits_value_prefix(s, j + 1);
        assert(s.subrange(0, j + 1).drop_last() =~= s.subrange(0, j));
    } else {
        assert(s.subrange(0, j) =~= s);
    }
}

/// Returns whether `s` is one or more decimal digits.
fn digits_ok(s: &str) -> (r: bool)
    ensures
        r == (s@.len() > 0 && all_digits(s@)),
{
    let n = s.unicode_len();
    if n == 0 {
        return false;
    }
    let mut i: usize = 0;
    while i < n
        invariant
            n == s@.len(),
            i <= n,
            forall|j: int| 0 <= j < i ==> is_digit(s@[j]),
        decreases n - i,
    {
        let c = s.get_char(i);
        if !('0' <= c && c <= '9') {
            return false;
        }
        i = i + 1;
    }
    true
}

/// Returns `s` without its first character where `strip_plus` or, with
/// `minus`, `strip_sign` would drop it.
fn without_sign(s: &str, minus: bool) -> (r: &str)
    ensures
        minus ==> r@ == strip_sign(s@),
        !minus ==> r@ == strip_plus(s@),
{
    let n = s.unicode_len();
    if n > 0 {
        let c = s.get_char(0);
        if c == '+' || (minus && c == '-') {
            return s.substring_char(1, n);
        }
    }
    assert(s@.subrange(0, s@.len() as int) =~= s@);
    s.substring_char(0, n)
}

/// Returns whether `s` parses as an unsigned byte.
pub fn parse_u8_ok(s: &str) -> (r: bool)
    ensures
        r == parses_as_u8(s@),
{
    let d = without_sign(s, false);
    if !digits_ok(d) {
        return false;
    }
    let n = d.unicode_len();
    let mut v: u32 = 0;
    let mut i: usize = 0;
    while i < n
        invariant
            n == d@.len(),
            d@ == strip_plus(s@),
            all_digits(d@),
            i <= n,
            v <= 255,
            v == digits_value(d@.subrange(0, i as int)),
        decreases n - i,
    {
        let c = d.get_char(i);
        let digit = (c as u32) - ('0' as u32);
        proof {
            assert(is_digit(d@[i as int]));
            assert(d@.subrange(0, i + 1) =~= d@.subrange(0, i as int).push(c));
            lemma_digits_value_push(d@.subrange(0, i as int), c);
        }
        v = v * 10 + digit;
        if v > 255 {
            proof {
                lemma_digits_value_prefix(d@, i + 1);
            }
            return false;
        }
        i = i + 1;
    }
    assert(d@.subrange(0, n as int) =~= d@);
    true
}

/// Returns whether `m` is a mantissa.
fn mantissa_ok(m: &str) -> (r: bool)
    ensures
        r == is_mantissa(m@),
{
    let n = m.unicode_len();
    let p = find_first(m, '.', '.');
    if p == n {
        digits_ok(m)
    } else {
        if n < 2 {
            return false;
        }
        let before = m.substring_char(0, p);
        let after = m.substring_char(p + 1, n);
        let a = before.unicode_len() == 0 || digits_ok(before);
        let b = after.unicode_len() == 0 || digits_ok(after);
        a && b
    }
}

/// Returns whether `s` parses as a 32-bit float.
pub fn parse_f32_ok(s: &str) -> (r: bool)
    ensures
        r == parses_as_f32(s@),
{
    let u = without_sign(s, true);
    if eq_ignore_case(u, "inf") || eq_ignore_case(u, "infinity") || eq_ignore_case(u, "nan") {
        return true;
    }
    let n = u.unicode_len();
    let k = find_first(u, 'e', 'E');
    if !mantissa_ok(u.substring_char(0, k)) {
        return false;
    }
    if k == n {
        return true;
    }
    let exp = without_sign(u.substring_char(k + 1, n), true);
    digits_ok(exp)
}

} // verus!

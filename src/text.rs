//! Character-level helpers on strings: prefix tests, ASCII case folding and
//! splitting a line at its first space.
use vstd::prelude::*;

verus! {

/// `p` is a prefix of `s` (compared character by character, case-sensitive).
pub open spec fn is_prefix(p: Seq<char>, s: Seq<char>) -> bool {
    p.len() <= s.len() && s.subrange(0, p.len() as int) == p
}

/// Returns whether `s` starts with `p`.
pub fn starts_with(s: &str, p: &str) -> (r: bool)
    ensures
        r == is_prefix(p@, s@),
{
    let n = s.unicode_len();
    let m = p.unicode_len();
    if m > n {
        return false;
    }
    let mut i: usize = 0;
    while i < m
        invariant
            m == p@.len(),
            n == s@.len(),
            m <= n,
            i <= m,
            forall|j: int| 0 <= j < i ==> s@[j] == p@[j],
        decreases m - i,
    {
        if s.get_char(i) != p.get_char(i) {
            assert(s@.subrange(0, m as int)[i as int] != p@[i as int]);
            return false;
        }
        i = i + 1;
    }
    assert(s@.subrange(0, m as int) =~= p@);
    true
}

/// ASCII lower-casing of one character; every other character is kept.
pub open spec fn ascii_lower(c: char) -> char {
    if 'A' <= c && c <= 'Z' {
        (((c as u32) + 32) as u8) as char
    } else {
        c
    }
}

/// `a` and `b` are equal once ASCII letters are folded to one case.
pub open spec fn eq_ignore_ascii_case(a: Seq<char>, b: Seq<char>) -> bool {
    a.len() == b.len() && forall|i: int| 0 <= i < a.len() ==> ascii_lower(a[i]) == ascii_lower(b[i])
}

/// Index of the first character of `s` that is `a` or `b`, or the length of
/// `s` where it has none.
pub open spec fn first_of(s: Seq<char>, a: char, b: char) -> nat
    decreases s.len(),
{
    if s.len() == 0 || s[0] == a || s[0] == b {
        0
    } else {
        1 + first_of(s.drop_first(), a, b)
    }
}

/// Index of the first space in `s`, or the length of `s` where it has none.
pub open spec fn space_index(s: Seq<char>) -> nat {
    first_of(s, ' ', ' ')
}

/// What precedes the first space of `s` (all of `s` where it has none).
pub open spec fn head_of(s: Seq<char>) -> Seq<char> {
    s.subrange(0, space_index(s) as int)
}

/// What follows the first space of `s` (empty where it has none).
pub open spec fn tail_of(s: Seq<char>) -> Seq<char> {
    if space_index(s) < s.len() {
        s.subrange(space_index(s) + 1int, s.len() as int)
    } else {
        Seq::empty()
    }
}

/// The first `a` or `b` of `s` stands at `k`, or there is none and `k` is the length.
proof fn lemma_first_of(s: Seq<char>, a: char, b: char, k: int)
    requires
        0 <= k <= s.len(),
        k == s.len() || s[k] == a || s[k] == b,
        forall|j: int| 0 <= j < k ==> s[j] != a && s[j] != b,
    ensures
        first_of(s, a, b) == k,
    decreases s.len(),
{
    if s.len() > 0 && s[0] != a && s[0] != b {
        lemma_first_of(s.drop_first(), a, b, k - 1);
    }
}

/// Returns the index of the first character of `s` that is `a` or `b`, or the
/// length of `s` where it has none.
pub fn find_first(s: &str, a: char, b: char) -> (r: usize)
    ensures
        r as nat == first_of(s@, a, b),
        r <= s@.len(),
{
    let n = s.unicode_len();
    let mut i: usize = 0;
    while i < n
        invariant
            n == s@.len(),
            i <= n,
            forall|j: int| 0 <= j < i ==> s@[j] != a && s@[j] != b,
        decreases n - i,
    {
        let c = s.get_char(i);
        if c == a || c == b {
            proof {
                lemma_first_of(s@, a, b, i as int);
            }
            return i;
        }
        i = i + 1;
    }
    proof {
        lemma_first_of(s@, a, b, i as int);
    }
    i
}

/// Returns what precedes the first space of `input` (all of it where it has none).
pub fn get_until_first_space(input: &String) -> (r: String)
    ensures
        r@ == head_of(input@),
{
    let k = find_first(input.as_str(), ' ', ' ');
    String::from_str(input.as_str().substring_char(0, k))
}

/// Returns what follows the first space of `input` (empty where it has none,
/// or where the space is its last character).
pub fn remove_until_first_space(input: &String) -> (r: String)
    ensures
        r@ == tail_of(input@),
{
    let s = input.as_str();
    let k = find_first(s, ' ', ' ');
    let n = s.unicode_len();
    if k < n {
        String::from_str(s.substring_char(k + 1, n))
    } else {
        String::new()
    }
}

/// ASCII lower-casing of one character.
fn to_ascii_lower(c: char) -> (r: char)
    ensures
        r == ascii_lower(c),
{
    if 'A' <= c && c <= 'Z' {
        let u: u32 = c as u32;
        ((u + 32) as u8) as char
    } else {
        c
    }
}

/// Returns whether `a` and `b` are equal once ASCII letters are folded to one case.
pub fn eq_ignore_case(a: &str, b: &str) -> (r: bool)
    ensures
        r == eq_ignore_ascii_case(a@, b@),
{
    let n = a.unicode_len();
    if n != b.unicode_len() {
        return false;
    }
    let mut i: usize = 0;
    while i < n
        invariant
            n == a@.len(),
            n == b@.len(),
            i <= n,
            forall|j: int| 0 <= j < i ==> ascii_lower(a@[j]) == ascii_lower(b@[j]),
        decreases n - i,
    {
        if to_ascii_lower(a.get_char(i)) != to_ascii_lower(b.get_char(i)) {
            return false;
        }
        i = i + 1;
    }
    true
}

} // verus!

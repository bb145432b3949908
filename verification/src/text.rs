//! Text primitives shared by every stage: Unicode white space, trimming,
//! ASCII case folding and the lexicographic order used for timestamps.

use vstd::prelude::*;
use vstd::std_specs::iter::IteratorSpec;

verus! {

/// The code points with the Unicode `White_Space` property.
pub open spec fn is_space(c: char) -> bool {
    let n = c as u32;
    ||| 0x09 <= n <= 0x0D
    ||| n == 0x20
    ||| n == 0x85
    ||| n == 0xA0
    ||| n == 0x1680
    ||| 0x2000 <= n <= 0x200A
    ||| n == 0x2028
    ||| n == 0x2029
    ||| n == 0x202F
    ||| n == 0x205F
    ||| n == 0x3000
}

/// A text is blank when it holds nothing but white space.
pub open spec fn blank(s: Seq<char>) -> bool {
    forall|i: int| 0 <= i < s.len() ==> is_space(#[trigger] s[i])
}

/// First index at or after `i` that holds no white space, or the length.
pub open spec fn skip_spaces(s: Seq<char>, i: int) -> int
    decreases s.len() - i,
{
    if 0 <= i < s.len() && is_space(s[i]) {
        skip_spaces(s, i + 1)
    } else {
        i
    }
}

/// Smallest end above `low` such that everything from it up to `j` is white
/// space.
pub open spec fn drop_spaces(s: Seq<char>, low: int, j: int) -> int
    decreases j,
{
    if 0 <= low < j <= s.len() && is_space(s[j - 1]) {
        drop_spaces(s, low, j - 1)
    } else {
        j
    }
}

/// The text without its leading and trailing white space.
pub open spec fn trimmed(s: Seq<char>) -> Seq<char> {
    let start = skip_spaces(s, 0);
    s.subrange(start, drop_spaces(s, start, s.len() as int))
}

/// A character with ASCII upper case letters mapped to lower case.
pub open spec fn folded(c: char) -> u32 {
    let n = c as u32;
    if 0x41 <= n <= 0x5A {
        (n + 0x20) as u32
    } else {
        n
    }
}

/// Equality of two texts up to ASCII letter case.
pub open spec fn same_name(a: Seq<char>, b: Seq<char>) -> bool {
    &&& a.len() == b.len()
    &&& forall|i: int| 0 <= i < a.len() ==> folded(#[trigger] a[i]) == folded(b[i])
}

/// Whether a header names the time axis.
pub open spec fn is_time_name(s: Seq<char>) -> bool {
    same_name(s, "timestamp"@) || same_name(s, "time"@)
}

/// First index at or after `i` where the two texts differ or one of them ends.
pub open spec fn first_difference(a: Seq<char>, b: Seq<char>, i: int) -> int
    decreases a.len() - i,
{
    if 0 <= i < a.len() && i < b.len() && a[i] == b[i] {
        first_difference(a, b, i + 1)
    } else {
        i
    }
}

/// Strict lexicographic order by code point.
pub open spec fn lex_less(a: Seq<char>, b: Seq<char>) -> bool {
    let k = first_difference(a, b, 0);
    k < b.len() && (k >= a.len() || (a[k] as u32) < (b[k] as u32))
}

/// What `first_difference` returns: the texts agree before it, and differ at
/// it unless one of them ends there.
pub proof fn lemma_first_difference(a: Seq<char>, b: Seq<char>, i: int)
    requires
        0 <= i <= a.len(),
        i <= b.len(),
    ensures
        i <= first_difference(a, b, i) <= a.len(),
        first_difference(a, b, i) <= b.len(),
        forall|j: int| i <= j < first_difference(a, b, i) ==> a[j] == b[j],
        first_difference(a, b, i) < a.len() && first_difference(a, b, i) < b.len() ==> a[first_difference(
            a,
            b,
            i,
        )] != b[first_difference(a, b, i)],
    decreases a.len() - i,
{
    if i < a.len() && i < b.len() && a[i] == b[i] {
        lemma_first_difference(a, b, i + 1);
    }
}

/// A position before which the texts agree, and at which they differ or one
/// ends, is the first difference.
pub proof fn lemma_difference_unique(a: Seq<char>, b: Seq<char>, i: int, k: int)
    requires
        0 <= i <= k <= a.len(),
        k <= b.len(),
        forall|j: int| i <= j < k ==> a[j] == b[j],
        k < a.len() && k < b.len() ==> a[k] != b[k],
    ensures
        first_difference(a, b, i) == k,
    decreases k - i,
{
    if i < k {
        lemma_difference_unique(a, b, i + 1, k);
    }
}

/// No text comes before itself.
pub proof fn lemma_less_irreflexive(a: Seq<char>)
    ensures
        !lex_less(a, a),
{
    lemma_first_difference(a, a, 0);
}

/// Two texts of which neither comes first are the same text.
pub proof fn lemma_less_connected(a: Seq<char>, b: Seq<char>)
    requires
        !lex_less(a, b),
        !lex_less(b, a),
    ensures
        a == b,
{
    lemma_first_difference(a, b, 0);
    let k = first_difference(a, b, 0);
    lemma_difference_unique(b, a, 0, k);
    if k < a.len() && k < b.len() {
        vstd::utf8::char_u32_cast(a[k], a[k] as u32);
        vstd::utf8::char_u32_cast(b[k], b[k] as u32);
    }
    assert(a =~= b);
}

/// The order is transitive.
pub proof fn lemma_less_transitive(a: Seq<char>, b: Seq<char>, c: Seq<char>)
    requires
        lex_less(a, b),
        lex_less(b, c),
    ensures
        lex_less(a, c),
{
    lemma_first_difference(a, b, 0);
    lemma_first_difference(b, c, 0);
    let k1 = first_difference(a, b, 0);
    let k2 = first_difference(b, c, 0);
    let k = if k1 <= k2 { k1 } else { k2 };
    lemma_difference_unique(a, c, 0, k);
}

pub fn is_whitespace(c: char) -> (b: bool)
    ensures
        b == is_space(c),
{
    let n: u32 = c as u32;
    (0x09 <= n && n <= 0x0D) || n == 0x20 || n == 0x85 || n == 0xA0 || n == 0x1680 || (0x2000 <= n
        && n <= 0x200A) || n == 0x2028 || n == 0x2029 || n == 0x202F || n == 0x205F || n == 0x3000
}

/// The characters of a text, in order.
pub fn chars_of(s: &str) -> (v: Vec<char>)
    ensures
        v@ == s@,
{
    let mut v: Vec<char> = Vec::new();
    for c in it: s.chars()
        invariant
            v@ == it.seq().take(it.index() as int),
    {
        v.push(c);
    }
    v
}

/// Whether the text holds nothing but white space.
pub fn is_blank(s: &str) -> (b: bool)
    ensures
        b == blank(s@),
{
    for c in it: s.chars()
        invariant
            it.seq() == s@,
            forall|k: int| 0 <= k < it.index() ==> is_space(#[trigger] s@[k]),
    {
        if !is_whitespace(c) {
            return false;
        }
    }
    true
}

/// Leading and trailing white space removed.
pub fn trim(s: &str) -> (r: String)
    ensures
        r@ == trimmed(s@),
{
    let chars = chars_of(s);
    let n: usize = chars.len();
    let mut start: usize = 0;
    while start < n && is_whitespace(chars[start])
        invariant
            start <= n,
            n == chars@.len(),
            skip_spaces(chars@, 0) == skip_spaces(chars@, start as int),
        decreases n - start,
    {
        start = start + 1;
    }
    let mut end: usize = n;
    while start < end && is_whitespace(chars[end - 1])
        invariant
            start <= end <= n,
            n == chars@.len(),
            drop_spaces(chars@, start as int, n as int) == drop_spaces(
                chars@,
                start as int,
                end as int,
            ),
        decreases end,
    {
        end = end - 1;
    }
    let piece = s.substring_char(start, end);
    piece.to_owned()
}

/// Equality of two texts up to ASCII letter case.
pub fn eq_ignore_case(a: &str, b: &str) -> (r: bool)
    ensures
        r == same_name(a@, b@),
{
    broadcast use vstd::string::group_string_axioms;

    let mut left = a.chars();
    let mut right = b.chars();
    let ghost mut n: int = 0;
    loop
        invariant
            0 <= n <= a@.len(),
            n <= b@.len(),
            left.remaining() == a@.skip(n),
            right.remaining() == b@.skip(n),
            forall|k: int| 0 <= k < n ==> folded(#[trigger] a@[k]) == folded(b@[k]),
        decreases a@.len() - n,
    {
        match (left.next(), right.next()) {
            (None, None) => {
                return true;
            },
            (Some(c), Some(d)) => {
                if fold(c) != fold(d) {
                    return false;
                }
                proof {
                    n = n + 1;
                }
            },
            _ => {
                return false;
            },
        }
    }
}

/// A character with ASCII upper case letters mapped to lower case.
pub fn fold(c: char) -> (n: u32)
    ensures
        n == folded(c),
{
    let n: u32 = c as u32;
    if 0x41 <= n && n <= 0x5A {
        n + 0x20
    } else {
        n
    }
}

/// Whether a header names the time axis.
pub fn names_time(s: &str) -> (r: bool)
    ensures
        r == is_time_name(s@),
{
    eq_ignore_case(s, "timestamp") || eq_ignore_case(s, "time")
}

/// Equality of two texts.
pub fn text_eq(a: &str, b: &str) -> (r: bool)
    ensures
        r == (a@ == b@),
{
    broadcast use vstd::string::group_string_axioms;

    let mut left = a.chars();
    let mut right = b.chars();
    let ghost mut n: int = 0;
    loop
        invariant
            0 <= n <= a@.len(),
            n <= b@.len(),
            left.remaining() == a@.skip(n),
            right.remaining() == b@.skip(n),
            forall|k: int| 0 <= k < n ==> a@[k] == b@[k],
        decreases a@.len() - n,
    {
        match (left.next(), right.next()) {
            (None, None) => {
                assert(a@ =~= b@);
                return true;
            },
            (Some(c), Some(d)) => {
                if c != d {
                    return false;
                }
                proof {
                    n = n + 1;
                }
            },
            _ => {
                return false;
            },
        }
    }
}

/// Strict lexicographic order by code point.
pub fn text_less(a: &str, b: &str) -> (r: bool)
    ensures
        r == lex_less(a@, b@),
{
    broadcast use vstd::string::group_string_axioms;

    let mut left = a.chars();
    let mut right = b.chars();
    let ghost mut n: int = 0;
    loop
        invariant
            0 <= n <= a@.len(),
            n <= b@.len(),
            left.remaining() == a@.skip(n),
            right.remaining() == b@.skip(n),
            first_difference(a@, b@, 0) == first_difference(a@, b@, n),
        decreases a@.len() - n,
    {
        match (left.next(), right.next()) {
            (Some(c), Some(d)) => {
                if c != d {
                    return (c as u32) < (d as u32);
                }
                proof {
                    n = n + 1;
                }
            },
            (None, Some(_)) => {
                return true;
            },
            _ => {
                return false;
            },
        }
    }
}

} // verus!

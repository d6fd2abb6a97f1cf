//! Character-level building blocks shared by the parsers: splitting a text at
//! the first occurrence of a character or of a line break, trimming leading
//! white space, and decimal rendering of numbers.

use vstd::prelude::*;
use vstd::std_specs::iter::IteratorSpec;
use vstd::string::StringExecFns;
use vstd::utf8::{encode_utf8, leading_byte_width_1};

verus! {

broadcast use vstd::string::group_string_axioms;

/// `i` is the position of the first `c` in `s`.
pub open spec fn is_first_index(s: Seq<char>, c: char, i: int) -> bool {
    &&& 0 <= i < s.len()
    &&& s[i] == c
    &&& forall|j: int| 0 <= j < i ==> s[j] != c
}

/// The text before the first `c` and the text after it, or `None` when `s`
/// holds no `c`.
pub open spec fn split_on_char(s: Seq<char>, c: char) -> Option<(Seq<char>, Seq<char>)> {
    if exists|i: int| is_first_index(s, c, i) {
        let i = choose|i: int| is_first_index(s, c, i);
        Some((s.subrange(0, i), s.subrange(i + 1, s.len() as int)))
    } else {
        None
    }
}

/// A character below 128 is encoded as the byte of the same value: a text
/// that holds it at `i` has that byte in its UTF-8 encoding.
pub proof fn lemma_ascii_char_encoded(s: Seq<char>, b: u8, i: int)
    requires
        b < 128,
        0 <= i < s.len(),
        s[i] == b as char,
    ensures
        encode_utf8(s).contains(b),
    decreases s.len(),
{
    let rest = s.drop_first();
    if i == 0 {
        let u = s[0] as u32;
        assert(u == b as u32);
        assert((u & 0x7F) as u8 == b) by (bit_vector)
            requires
                u == b as u32,
                b < 128,
        ;
        assert(encode_utf8(s)[0] == leading_byte_width_1(u));
        assert(encode_utf8(s)[0] == b);
    } else {
        assert(rest[i - 1] == s[i]);
        lemma_ascii_char_encoded(rest, b, i - 1);
        let e = vstd::utf8::encode_scalar(s[0] as u32);
        assert(encode_utf8(s) == e + encode_utf8(rest));
        let k = choose|k: int| 0 <= k < encode_utf8(rest).len() && encode_utf8(rest)[k] == b;
        assert(encode_utf8(s)[e.len() + k] == b);
    }
}

/// A first position is unique.
pub proof fn lemma_first_index_unique(s: Seq<char>, c: char, i: int, k: int)
    requires
        is_first_index(s, c, i),
        is_first_index(s, c, k),
    ensures
        i == k,
{
    if i < k {
        assert(s[i] != c);
    } else if k < i {
        assert(s[k] != c);
    }
}

/// Splitting at a known first position.
pub proof fn lemma_split_on_char_at(s: Seq<char>, c: char, i: int)
    requires
        is_first_index(s, c, i),
    ensures
        split_on_char(s, c) == Some((s.subrange(0, i), s.subrange(i + 1, s.len() as int))),
{
    let k = choose|k: int| is_first_index(s, c, k);
    lemma_first_index_unique(s, c, i, k);
}

/// A line break (`"\r\n"`) starts at position `i` of `s`.
pub open spec fn crlf_at(s: Seq<char>, i: int) -> bool {
    &&& 0 <= i
    &&& i + 1 < s.len()
    &&& s[i] == '\r'
    &&& s[i + 1] == '\n'
}

/// Splitting loses nothing: the part before, the character and the rest
/// make up the text again, and the part before holds no such character;
/// when there is nothing to split, the text holds no such character.
pub proof fn lemma_split_on_char_rejoins(s: Seq<char>, c: char)
    ensures
        match split_on_char(s, c) {
            Some((before, after)) => {
                &&& s == before + seq![c] + after
                &&& forall|j: int| 0 <= j < before.len() ==> before[j] != c
            },
            None => forall|j: int| 0 <= j < s.len() ==> s[j] != c,
        },
{
    if exists|i: int| is_first_index(s, c, i) {
        let i = choose|i: int| is_first_index(s, c, i);
        assert(s =~= s.subrange(0, i) + seq![c] + s.subrange(i + 1, s.len() as int));
    } else {
        assert forall|j: int| 0 <= j < s.len() implies s[j] != c by {
            if s[j] == c {
                lemma_first_occurrence_exists(s, c, j);
            }
        }
    }
}

/// Where `c` occurs, a first occurrence exists.
proof fn lemma_first_occurrence_exists(s: Seq<char>, c: char, j: int)
    requires
        0 <= j < s.len(),
        s[j] == c,
    ensures
        exists|i: int| is_first_index(s, c, i),
    decreases j,
{
    if exists|m: int| 0 <= m < j && s[m] == c {
        let m = choose|m: int| 0 <= m < j && s[m] == c;
        lemma_first_occurrence_exists(s, c, m);
    } else {
        assert(is_first_index(s, c, j));
    }
}

/// `i` is the position of the first line break in `s`.
pub open spec fn is_first_crlf(s: Seq<char>, i: int) -> bool {
    &&& crlf_at(s, i)
    &&& forall|j: int| 0 <= j < i ==> !crlf_at(s, j)
}

/// The text before the first line break and the text after it, or `None`
/// when `s` holds no line break.
pub open spec fn split_on_crlf(s: Seq<char>) -> Option<(Seq<char>, Seq<char>)> {
    if exists|i: int| is_first_crlf(s, i) {
        let i = choose|i: int| is_first_crlf(s, i);
        Some((s.subrange(0, i), s.subrange(i + 2, s.len() as int)))
    } else {
        None
    }
}

/// A first line break is unique.
pub proof fn lemma_first_crlf_unique(s: Seq<char>, i: int, k: int)
    requires
        is_first_crlf(s, i),
        is_first_crlf(s, k),
    ensures
        i == k,
{
    if i < k {
        assert(crlf_at(s, i));
    } else if k < i {
        assert(crlf_at(s, k));
    }
}

/// Splitting at a known first line break.
pub proof fn lemma_split_on_crlf_at(s: Seq<char>, i: int)
    requires
        is_first_crlf(s, i),
    ensures
        split_on_crlf(s) == Some((s.subrange(0, i), s.subrange(i + 2, s.len() as int))),
{
    let k = choose|k: int| is_first_crlf(s, k);
    lemma_first_crlf_unique(s, i, k);
}

/// The first position of `c` in `v`, if any.
pub fn find_char(v: &Vec<char>, c: char) -> (r: Option<usize>)
    ensures
        match r {
            Some(i) => is_first_index(v@, c, i as int),
            None => forall|j: int| 0 <= j < v@.len() ==> v@[j] != c,
        },
{
    let mut i: usize = 0;
    while i < v.len()
        invariant
            i <= v.len(),
            forall|j: int| 0 <= j < i ==> v@[j] != c,
        decreases v.len() - i,
    {
        if v[i] == c {
            return Some(i);
        }
        i = i + 1;
    }
    None
}

/// The first position of a line break in `v`, if any.
pub fn find_crlf(v: &Vec<char>) -> (r: Option<usize>)
    ensures
        match r {
            Some(i) => is_first_crlf(v@, i as int),
            None => forall|j: int| !crlf_at(v@, j),
        },
{
    let mut i: usize = 0;
    while i < v.len()
        invariant
            forall|j: int| 0 <= j < i ==> !crlf_at(v@, j),
        decreases v.len() - i,
    {
        if i + 1 < v.len() && v[i] == '\r' && v[i + 1] == '\n' {
            return Some(i);
        }
        i = i + 1;
    }
    None
}

/// Membership in the Unicode `White_Space` property, the set that
/// `char::is_whitespace` and `str::trim_start` go by.
pub open spec fn is_white_space(c: char) -> bool {
    let u = c as u32;
    ||| 0x09 <= u <= 0x0D
    ||| u == 0x20
    ||| u == 0x85
    ||| u == 0xA0
    ||| u == 0x1680
    ||| 0x2000 <= u <= 0x200A
    ||| u == 0x2028
    ||| u == 0x2029
    ||| u == 0x202F
    ||| u == 0x205F
    ||| u == 0x3000
}

/// Whether `c` is Unicode white space.
pub fn white_space(c: char) -> (r: bool)
    ensures
        r == is_white_space(c),
{
    let u = c as u32;
    (0x09 <= u && u <= 0x0D) || u == 0x20 || u == 0x85 || u == 0xA0 || u == 0x1680 || (0x2000
        <= u && u <= 0x200A) || u == 0x2028 || u == 0x2029 || u == 0x202F || u == 0x205F || u
        == 0x3000
}

/// `s` without its leading white space.
pub open spec fn trim_start(s: Seq<char>) -> Seq<char>
    decreases s.len(),
{
    if s.len() > 0 && is_white_space(s[0]) {
        trim_start(s.drop_first())
    } else {
        s
    }
}

/// Dropping `k` leading white-space characters does not change the trimmed text.
proof fn lemma_trim_start_skip(s: Seq<char>, k: int)
    requires
        0 <= k <= s.len(),
        forall|j: int| 0 <= j < k ==> is_white_space(s[j]),
    ensures
        trim_start(s) == trim_start(s.subrange(k, s.len() as int)),
    decreases k,
{
    if k > 0 {
        assert(s.drop_first() =~= s.subrange(1, s.len() as int));
        lemma_trim_start_skip(s.drop_first(), k - 1);
        assert(s.drop_first().subrange(k - 1, s.drop_first().len() as int) =~= s.subrange(
            k,
            s.len() as int,
        ));
    } else {
        assert(s.subrange(0, s.len() as int) =~= s);
    }
}

/// `s` without its leading white space.
pub fn trim_start_str<'a>(s: &'a str) -> (r: &'a str)
    ensures
        r@ == trim_start(s@),
{
    let v = chars_of(s);
    let mut k: usize = 0;
    while k < v.len() && white_space(v[k])
        invariant
            k <= v.len(),
            v@ == s@,
            forall|j: int| 0 <= j < k ==> is_white_space(v@[j]),
        decreases v.len() - k,
    {
        k = k + 1;
    }
    proof {
        lemma_trim_start_skip(s@, k as int);
    }
    s.substring_char(k, v.len())
}

/// The character of a decimal digit.
pub open spec fn digit_char(d: nat) -> char {
    (48 + d) as char
}

/// `n` written in decimal, without leading zeros.
pub open spec fn decimal_text(n: nat) -> Seq<char>
    decreases n,
{
    if n < 10 {
        seq![digit_char(n)]
    } else {
        decimal_text(n / 10).push(digit_char(n % 10))
    }
}

/// The one-character text of a decimal digit.
fn digit_str(d: u64) -> (r: &'static str)
    requires
        d < 10,
    ensures
        r@ == seq![digit_char(d as nat)],
{
    proof {
        reveal_strlit("0");
        reveal_strlit("1");
        reveal_strlit("2");
        reveal_strlit("3");
        reveal_strlit("4");
        reveal_strlit("5");
        reveal_strlit("6");
        reveal_strlit("7");
        reveal_strlit("8");
        reveal_strlit("9");
    }
    if d == 0 {
        "0"
    } else if d == 1 {
        "1"
    } else if d == 2 {
        "2"
    } else if d == 3 {
        "3"
    } else if d == 4 {
        "4"
    } else if d == 5 {
        "5"
    } else if d == 6 {
        "6"
    } else if d == 7 {
        "7"
    } else if d == 8 {
        "8"
    } else {
        "9"
    }
}

/// `n` written in decimal.
pub fn decimal_string(n: u64) -> (r: String)
    ensures
        r@ == decimal_text(n as nat),
    decreases n,
{
    if n < 10 {
        String::from_str(digit_str(n))
    } else {
        let mut s = decimal_string(n / 10);
        s.append(digit_str(n % 10));
        s
    }
}

/// The characters of `s`, in order.
pub fn chars_of(s: &str) -> (v: Vec<char>)
    ensures
        v@ == s@,
{
    let mut v: Vec<char> = Vec::new();
    let mut it = s.chars();
    loop
        invariant
            v@ + it.remaining() == s@,
            it.decrease() is Some,
        ensures
            v@ == s@,
        decreases it.decrease()->0,
    {
        match it.next() {
            Some(c) => {
                v.push(c);
            },
            None => {
                break ;
            },
        }
    }
    v
}

} // verus!

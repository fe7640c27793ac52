//! Conversions between bytes, chars and strings that the standard library
//! performs and vstd leaves unspecified, plus small verified string helpers.
use vstd::prelude::*;
use vstd::slice::slice_subrange;
use vstd::string::StringExecFns;
use vstd::utf8::*;

use crate::seqs::{
    lemma_split_seq_len, parse_hex, parse_hex_u32, parse_num, parse_u32, split_chars, split_seq,
};

verus! {

/// What `String::from_utf8_lossy` makes of `bytes`.
pub uninterp spec fn utf8_lossy(bytes: Seq<u8>) -> Seq<char>;

/// The text of `bytes` as `String::from_utf8_lossy` gives it: decoded
/// as is when they are valid UTF-8.
pub open spec fn lossy_text(bytes: Seq<u8>) -> Seq<char> {
    if valid_utf8(bytes) {
        decode_utf8(bytes)
    } else {
        utf8_lossy(bytes)
    }
}

/// `String::from_utf8_lossy(bytes).into_owned()`. Its documentation says
/// that valid UTF-8 is decoded as is and that each invalid sequence becomes
/// one U+FFFD: every char comes from at least one byte. Beyond that the
/// result is named by `utf8_lossy`.
#[verifier::external_body]
pub fn lossy_string(bytes: &[u8]) -> (s: String)
    ensures
        s@ == utf8_lossy(bytes@),
        valid_utf8(bytes@) ==> s@ == decode_utf8(bytes@),
        s@.len() <= bytes@.len(),
{
    String::from_utf8_lossy(bytes).into_owned()
}

/// `std::str::from_utf8`: the string the bytes encode, when they are
/// valid UTF-8.
#[verifier::external_body]
pub fn str_from_utf8(bytes: &[u8]) -> (r: Option<&str>)
    ensures
        r is Some <==> valid_utf8(bytes@),
        r matches Some(s) ==> s@ == decode_utf8(bytes@),
{
    std::str::from_utf8(bytes).ok()
}

/// `char::from_u32`: the char whose code is `v`, when `v` is a Unicode
/// scalar value.
#[verifier::external_body]
pub fn char_from_u32(v: u32) -> (r: Option<char>)
    ensures
        r is Some <==> is_scalar(v),
        r matches Some(c) ==> c as u32 == v,
{
    char::from_u32(v)
}

/// `String::push`: appends one char.
#[verifier::external_body]
pub fn push_char(s: &mut String, c: char)
    ensures
        final(s)@ == old(s)@.push(c),
{
    s.push(c)
}

/// `String::into_bytes`: the UTF-8 encoding of the string.
#[verifier::external_body]
pub fn string_bytes(s: String) -> (b: Vec<u8>)
    ensures
        b@ == encode_utf8(s@),
{
    s.into_bytes()
}

/// A string holding exactly the chars of `v`.
pub fn string_from_chars(v: &[char]) -> (s: String)
    ensures
        s@ == v@,
{
    let mut s = String::new();
    let mut i: usize = 0;
    while i < v.len()
        invariant
            i <= v.len(),
            s@ == v@.take(i as int),
        decreases v.len() - i,
    {
        push_char(&mut s, v[i]);
        assert(v@.take(i + 1) =~= v@.take(i as int).push(v@[i as int]));
        i = i + 1;
    }
    assert(v@.take(v.len() as int) =~= v@);
    s
}

/// The chars of `s`, in order.
pub fn chars_of(s: &str) -> (v: Vec<char>)
    ensures
        v@ == s@,
{
    broadcast use vstd::string::group_string_axioms;
    let mut v: Vec<char> = Vec::new();
    for c in it: s.chars()
        invariant
            v@ == it.seq().take(it.index() as int),
    {
        v.push(c);
    }
    v
}

/// The bytes of the ASCII text `s`, one per char.
pub open spec fn ascii_bytes(s: Seq<char>) -> Seq<u8> {
    s.map_values(|c: char| c as u8)
}

/// Appends `src` to `out`.
pub fn append_bytes(out: &mut Vec<u8>, src: &[u8])
    ensures
        final(out)@ == old(out)@ + src@,
{
    let mut i: usize = 0;
    while i < src.len()
        invariant
            i <= src.len(),
            out@ == old(out)@ + src@.take(i as int),
        decreases src.len() - i,
    {
        out.push(src[i]);
        assert(src@.take(i + 1) =~= src@.take(i as int).push(src@[i as int]));
        i = i + 1;
    }
    assert(src@.take(src.len() as int) =~= src@);
}

/// Appends the bytes of the ASCII text `s`.
pub fn push_ascii(out: &mut Vec<u8>, s: &str)
    requires
        is_ascii_chars(s@),
    ensures
        final(out)@ == old(out)@ + ascii_bytes(s@),
{
    let b = s.as_bytes();
    proof {
        vstd::string::is_ascii_spec_bytes(s);
        assert(b@ =~= ascii_bytes(s@));
    }
    append_bytes(out, b);
}

/// `str::as_bytes`: the UTF-8 encoding of `s`. Like every slice it spans at
/// most `isize::MAX` bytes, as the documentation of `slice::from_raw_parts`
/// states.
#[verifier::external_body]
pub fn str_bytes(s: &str) -> (b: &[u8])
    ensures
        b@ == encode_utf8(s@),
        b@.len() <= isize::MAX,
{
    s.as_bytes()
}

/// The decimal digits of `n`, as ASCII bytes, without leading zeros.
pub open spec fn decimal(n: nat) -> Seq<u8>
    decreases n,
{
    if n < 10 {
        seq![(0x30 + n) as u8]
    } else {
        decimal(n / 10).push((0x30 + n % 10) as u8)
    }
}

/// `10` to the power `k`.
pub open spec fn pow10(k: nat) -> nat
    decreases k,
{
    if k == 0 {
        1
    } else {
        10 * pow10((k - 1) as nat)
    }
}

/// A number below `10^k` has at most `k` digits.
pub proof fn lemma_decimal_len(n: nat, k: nat)
    requires
        n < pow10(k),
        k >= 1,
    ensures
        decimal(n).len() <= k,
    decreases k,
{
    if n >= 10 {
        let b2 = pow10((k - 1) as nat);
        assert(n / 10 < b2) by (nonlinear_arith)
            requires
                n < 10 * b2,
        ;
        if k == 1 {
        } else {
            lemma_decimal_len(n / 10, (k - 1) as nat);
        }
    }
}

/// Appends the decimal digits of `n`.
pub fn push_decimal(out: &mut Vec<u8>, n: u64)
    ensures
        final(out)@ == old(out)@ + decimal(n as nat),
    decreases n,
{
    if n >= 10 {
        push_decimal(out, n / 10);
    }
    out.push((0x30 + n % 10) as u8);
    proof {
        if n >= 10 {
            assert(old(out)@ + decimal(n as nat) =~= old(out)@ + decimal((n / 10) as nat) + seq![
                (0x30 + n % 10) as u8,
            ]);
        } else {
            assert(old(out)@ + decimal(n as nat) =~= old(out)@ + seq![(0x30 + n % 10) as u8]);
        }
    }
}

/// The chars of ASCII bytes.
pub open spec fn ascii_chars(b: Seq<u8>) -> Seq<char> {
    b.map_values(|x: u8| x as char)
}

/// Appends the decimal digits of `n` to a string.
pub fn push_decimal_str(s: &mut String, n: u64)
    ensures
        final(s)@ == old(s)@ + ascii_chars(decimal(n as nat)),
    decreases n,
{
    if n >= 10 {
        push_decimal_str(s, n / 10);
    }
    let d = (0x30 + n % 10) as u8;
    push_char(s, d as char);
    proof {
        if n >= 10 {
            assert(ascii_chars(decimal(n as nat)) =~= ascii_chars(decimal((n / 10) as nat)).push(
                d as char,
            ));
            assert(old(s)@ + ascii_chars(decimal(n as nat)) =~= old(s)@ + ascii_chars(
                decimal((n / 10) as nat),
            ) + seq![d as char]);
        } else {
            assert(old(s)@ + ascii_chars(decimal(n as nat)) =~= old(s)@.push(d as char));
        }
    }
}

/// Appends the chars of the string `t`.
pub fn push_str(s: &mut String, t: &str)
    ensures
        final(s)@ == old(s)@ + t@,
{
    s.append(t);
}

/// `char::is_whitespace`: the Unicode `White_Space` property.
pub open spec fn is_white(c: char) -> bool {
    ||| '\u{9}' <= c <= '\u{d}'
    ||| c == ' '
    ||| c == '\u{85}'
    ||| c == '\u{a0}'
    ||| c == '\u{1680}'
    ||| '\u{2000}' <= c <= '\u{200a}'
    ||| c == '\u{2028}'
    ||| c == '\u{2029}'
    ||| c == '\u{202f}'
    ||| c == '\u{205f}'
    ||| c == '\u{3000}'
}

pub fn is_white_char(c: char) -> (r: bool)
    ensures
        r == is_white(c),
{
    ('\u{9}' <= c && c <= '\u{d}') || c == ' ' || c == '\u{85}' || c == '\u{a0}' || c == '\u{1680}' || (
    '\u{2000}' <= c && c <= '\u{200a}') || c == '\u{2028}' || c == '\u{2029}' || c == '\u{202f}' || c
        == '\u{205f}' || c == '\u{3000}'
}

/// `str::trim_start`: without leading whitespace.
pub open spec fn trim_start(s: Seq<char>) -> Seq<char>
    decreases s.len(),
{
    if s.len() > 0 && is_white(s[0]) {
        trim_start(s.drop_first())
    } else {
        s
    }
}

/// `str::trim_end`: without trailing whitespace.
pub open spec fn trim_end(s: Seq<char>) -> Seq<char>
    decreases s.len(),
{
    if s.len() > 0 && is_white(s.last()) {
        trim_end(s.drop_last())
    } else {
        s
    }
}

/// `str::trim`: without leading and trailing whitespace.
pub open spec fn trim(s: Seq<char>) -> Seq<char> {
    trim_end(trim_start(s))
}

/// Index of the first non-whitespace char (or the length).
pub fn trim_start_index(v: &[char]) -> (i: usize)
    ensures
        i <= v@.len(),
        trim_start(v@) == v@.skip(i as int),
{
    let mut i: usize = 0;
    assert(v@.skip(0) =~= v@);
    while i < v.len() && is_white_char(v[i])
        invariant
            i <= v@.len(),
            trim_start(v@) == trim_start(v@.skip(i as int)),
        decreases v.len() - i,
    {
        assert(v@.skip(i as int).drop_first() =~= v@.skip(i + 1));
        i = i + 1;
    }
    i
}

/// One past the last non-whitespace char (or zero).
pub fn trim_end_index(v: &[char]) -> (j: usize)
    ensures
        j <= v@.len(),
        trim_end(v@) == v@.take(j as int),
{
    let mut j: usize = v.len();
    assert(v@.take(v.len() as int) =~= v@);
    while j > 0 && is_white_char(v[j - 1])
        invariant
            j <= v@.len(),
            trim_end(v@) == trim_end(v@.take(j as int)),
        decreases j,
    {
        assert(v@.take(j as int).drop_last() =~= v@.take(j - 1));
        j = j - 1;
    }
    j
}

proof fn lemma_trim_end_of_skip(s: Seq<char>, i: int, j: int)
    requires
        0 <= i <= j <= s.len(),
        trim_end(s) == s.take(j),
        forall|k: int| 0 <= k < i ==> is_white(#[trigger] s[k]),
    ensures
        trim_end(s.skip(i)) == s.subrange(i, j),
    decreases s.len(),
{
    if s.len() > 0 && is_white(s.last()) {
        lemma_trim_end_len(s.drop_last());
        assert(j <= s.len() - 1);
        assert(s.take(j) =~= s.drop_last().take(j));
        if s.len() > i {
            assert(s.drop_last().skip(i) =~= s.skip(i).drop_last());
            lemma_trim_end_of_skip(s.drop_last(), i, j);
            assert(s.drop_last().subrange(i, j) =~= s.subrange(i, j));
        } else {
            assert(s.skip(i).len() == 0);
            assert(s.drop_last().len() < i);
            lemma_trim_end_all_white(s);
            assert(s.subrange(i, j).len() == 0);
        }
    } else {
        assert(s.take(j) == s);
        assert(s.skip(i) =~= s.subrange(i, j));
        if s.skip(i).len() > 0 {
            assert(s.skip(i).last() == s.last());
        }
    }
}

proof fn lemma_trim_end_len(s: Seq<char>)
    ensures
        trim_end(s).len() <= s.len(),
    decreases s.len(),
{
    if s.len() > 0 && is_white(s.last()) {
        lemma_trim_end_len(s.drop_last());
    }
}

proof fn lemma_trim_end_all_white(s: Seq<char>)
    requires
        forall|k: int| 0 <= k < s.len() ==> is_white(#[trigger] s[k]),
    ensures
        trim_end(s).len() == 0,
    decreases s.len(),
{
    if s.len() > 0 {
        assert(is_white(s[s.len() - 1]));
        lemma_trim_end_all_white(s.drop_last());
    }
}

proof fn lemma_trim_start_prefix_white(s: Seq<char>, i: int)
    requires
        0 <= i <= s.len(),
        trim_start(s) == s.skip(i),
        i == 0 || trim_start(s).len() < s.len(),
    ensures
        forall|k: int| 0 <= k < i ==> is_white(#[trigger] s[k]),
    decreases s.len(),
{
    if s.len() > 0 && is_white(s[0]) {
        lemma_trim_start_len(s.drop_first());
        if i > 0 {
            assert(s.drop_first().skip(i - 1) =~= s.skip(i));
            lemma_trim_start_prefix_white(s.drop_first(), i - 1);
            assert forall|k: int| 0 <= k < i implies is_white(#[trigger] s[k]) by {
                if k > 0 {
                    assert(s[k] == s.drop_first()[k - 1]);
                }
            }
        }
    } else {
        assert(s.skip(i).len() == s.len() - i);
    }
}

proof fn lemma_trim_start_len(s: Seq<char>)
    ensures
        trim_start(s).len() <= s.len(),
    decreases s.len(),
{
    if s.len() > 0 && is_white(s[0]) {
        lemma_trim_start_len(s.drop_first());
    }
}

/// The range of `v` that `trim` keeps.
pub fn trim_range(v: &[char]) -> (r: (usize, usize))
    ensures
        r.0 <= r.1 <= v@.len(),
        trim(v@) == v@.subrange(r.0 as int, r.1 as int),
{
    let i = trim_start_index(v);
    let j = trim_end_index(v);
    proof {
        lemma_trim_start_len(v@);
        if i > 0 {
            lemma_trim_start_prefix_white(v@, i as int);
        }
    }
    if j < i {
        proof {
            // everything is whitespace
            lemma_trim_start_prefix_white(v@, i as int);
            assert(v@.skip(i as int).len() == v@.len() - i);
            assert forall|k: int| 0 <= k < v@.len() implies is_white(#[trigger] v@[k]) by {
                if k >= i {
                    // trim_end keeps nothing past j <= i
                    lemma_trim_end_keeps_last(v@, j as int, k);
                }
            }
            lemma_trim_end_all_white(v@.skip(i as int));
            assert(v@.subrange(i as int, i as int).len() == 0);
            assert(trim(v@) =~= v@.subrange(i as int, i as int));
        }
        return (i, i);
    }
    proof {
        lemma_trim_end_of_skip(v@, i as int, j as int);
    }
    (i, j)
}

proof fn lemma_trim_end_keeps_last(s: Seq<char>, j: int, k: int)
    requires
        0 <= j <= k < s.len(),
        trim_end(s) == s.take(j),
    ensures
        is_white(s[k]),
    decreases s.len(),
{
    if s.len() > 0 && is_white(s.last()) {
        if k < s.len() - 1 {
            assert(s.drop_last()[k] == s[k]);
            if j <= s.drop_last().len() {
                assert(s.take(j) =~= s.drop_last().take(j));
            }
            lemma_trim_end_keeps_last(s.drop_last(), j, k);
        }
    } else {
        assert(s.take(j).len() == j);
    }
}

/// `s.trim()` as an owned string.
pub fn trim_string(s: &str) -> (t: String)
    ensures
        t@ == trim(s@),
{
    let v = chars_of(s);
    let (a, b) = trim_range(v.as_slice());
    string_from_chars(slice_subrange(v.as_slice(), a, b))
}

/// Every char is ASCII.
pub open spec fn all_ascii(s: Seq<char>) -> bool {
    forall|i: int| 0 <= i < s.len() ==> (#[trigger] s[i] as u32) < 128
}

/// `str::parse::<u32>` on chars: only ASCII can be digits or `+`.
pub open spec fn parse_u32_chars(s: Seq<char>) -> Option<u32> {
    if all_ascii(s) {
        parse_u32(ascii_bytes(s))
    } else {
        None
    }
}

/// `u32::from_str_radix(_, 16)` on chars.
pub open spec fn parse_hex_chars(s: Seq<char>) -> Option<u32> {
    if all_ascii(s) {
        parse_hex_u32(ascii_bytes(s))
    } else {
        None
    }
}

/// The bytes of ASCII chars, or `None` when one is not ASCII.
fn ascii_of(v: &[char]) -> (r: Option<Vec<u8>>)
    ensures
        r is Some <==> all_ascii(v@),
        r matches Some(b) ==> b@ == ascii_bytes(v@),
{
    let mut out: Vec<u8> = Vec::new();
    let mut i: usize = 0;
    while i < v.len()
        invariant
            i <= v.len(),
            all_ascii(v@.take(i as int)),
            out@ == ascii_bytes(v@.take(i as int)),
        decreases v.len() - i,
    {
        let c = v[i];
        if (c as u32) >= 128 {
            return None;
        }
        out.push(c as u8);
        assert(v@.take(i + 1) =~= v@.take(i as int).push(c));
        assert(ascii_bytes(v@.take(i + 1)) =~= ascii_bytes(v@.take(i as int)).push(c as u8));
        i = i + 1;
    }
    assert(v@.take(v.len() as int) =~= v@);
    Some(out)
}

/// `str::parse::<u32>` on chars.
pub fn parse_num_chars(v: &[char]) -> (r: Option<u32>)
    ensures
        r == parse_u32_chars(v@),
{
    match ascii_of(v) {
        Some(b) => parse_num(b.as_slice()),
        None => None,
    }
}

/// `u32::from_str_radix(_, 16)` on chars.
pub fn parse_hex_chars_exec(v: &[char]) -> (r: Option<u32>)
    ensures
        r == parse_hex_chars(v@),
{
    match ascii_of(v) {
        Some(b) => parse_hex(b.as_slice()),
        None => None,
    }
}

/// What `str::to_lowercase` makes of `s` (the Unicode lowercase mapping,
/// which may change the length).
pub uninterp spec fn lowercase(s: Seq<char>) -> Seq<char>;

/// `str::to_lowercase`; its result is named by `lowercase`.
#[verifier::external_body]
pub fn to_lowercase(s: &str) -> (r: String)
    ensures
        r@ == lowercase(s@),
{
    s.to_lowercase()
}

/// The two char sequences are equal.
pub fn chars_eq(a: &[char], b: &[char]) -> (r: bool)
    ensures
        r == (a@ == b@),
{
    if a.len() != b.len() {
        return false;
    }
    let mut i: usize = 0;
    while i < a.len()
        invariant
            i <= a.len(),
            a.len() == b.len(),
            forall|j: int| 0 <= j < i ==> a@[j] == b@[j],
        decreases a.len() - i,
    {
        if a[i] != b[i] {
            return false;
        }
        i = i + 1;
    }
    assert(a@ =~= b@);
    true
}

/// `a` begins with `pre`.
pub fn chars_start_with(a: &[char], pre: &[char]) -> (r: bool)
    ensures
        r == crate::seqs::starts_with(a@, pre@),
{
    if pre.len() > a.len() {
        return false;
    }
    let head = slice_subrange(a, 0, pre.len());
    assert(head@ == a@.take(pre.len() as int));
    chars_eq(head, pre)
}

/// The text equals the literal `lit`.
pub fn str_is(s: &str, lit: &str) -> (r: bool)
    ensures
        r == (s@ == lit@),
{
    let a = chars_of(s);
    let b = chars_of(lit);
    chars_eq(a.as_slice(), b.as_slice())
}

// ---------------------------------------------------------------------------
// Lines and words, as `str::lines` and `str::split_whitespace` see them.

/// A line without the `\r` of a `\r\n` ending.
pub open spec fn strip_cr(l: Seq<char>) -> Seq<char> {
    if l.len() > 0 && l.last() == '\r' {
        l.drop_last()
    } else {
        l
    }
}

/// `str::lines`: split at `\n`, each ending may be `\r\n`, and the last
/// line needs no ending (a final empty piece is no line).
pub open spec fn lines_of(s: Seq<char>) -> Seq<Seq<char>> {
    let p = split_seq(s, '\n');
    let body = p.take(p.len() - 1).map_values(|l: Seq<char>| strip_cr(l));
    if p.last().len() == 0 {
        body
    } else {
        body.push(p.last())
    }
}

/// First index at or after `i` that holds no whitespace (or the length).
pub open spec fn skip_white(s: Seq<char>, i: int) -> int
    decreases s.len() - i,
{
    if i >= s.len() {
        s.len() as int
    } else if 0 <= i && is_white(s[i]) {
        skip_white(s, i + 1)
    } else {
        i
    }
}

/// First index at or after `i` that holds whitespace (or the length).
pub open spec fn skip_word(s: Seq<char>, i: int) -> int
    decreases s.len() - i,
{
    if i >= s.len() {
        s.len() as int
    } else if 0 <= i && !is_white(s[i]) {
        skip_word(s, i + 1)
    } else {
        i
    }
}

pub open spec fn views(v: Seq<Vec<char>>) -> Seq<Seq<char>> {
    v.map_values(|x: Vec<char>| x@)
}

pub fn skip_white_exec(s: &[char], i: usize) -> (r: usize)
    requires
        i <= s.len(),
    ensures
        r == skip_white(s@, i as int),
        i <= r <= s.len(),
{
    let mut j = i;
    while j < s.len() && is_white_char(s[j])
        invariant
            i <= j <= s.len(),
            skip_white(s@, i as int) == skip_white(s@, j as int),
        decreases s.len() - j,
    {
        j = j + 1;
    }
    j
}

pub fn skip_word_exec(s: &[char], i: usize) -> (r: usize)
    requires
        i <= s.len(),
    ensures
        r == skip_word(s@, i as int),
        i <= r <= s.len(),
{
    let mut j = i;
    while j < s.len() && !is_white_char(s[j])
        invariant
            i <= j <= s.len(),
            skip_word(s@, i as int) == skip_word(s@, j as int),
        decreases s.len() - j,
    {
        j = j + 1;
    }
    j
}

/// A line without the `\r` of a `\r\n` ending.
pub fn strip_cr_exec(l: &[char]) -> (r: Vec<char>)
    ensures
        r@ == strip_cr(l@),
{
    if l.len() > 0 && l[l.len() - 1] == '\r' {
        vstd::slice::slice_to_vec(slice_subrange(l, 0, l.len() - 1))
    } else {
        vstd::slice::slice_to_vec(l)
    }
}

/// `str::lines` on chars.
pub fn lines_exec(todo: &[char]) -> (r: Vec<Vec<char>>)
    ensures
        views(r@) == lines_of(todo@),
{
    let pieces = split_chars(todo, '\n');
    let ghost p = split_seq(todo@, '\n');
    proof {
        lemma_split_seq_len(todo@, '\n');
    }
    let n = pieces.len();
    let mut out: Vec<Vec<char>> = Vec::new();
    let mut k: usize = 0;
    while k + 1 < n
        invariant
            n == pieces@.len(),
            n == p.len(),
            n >= 1,
            k + 1 <= n,
            forall|j: int| 0 <= j < n ==> #[trigger] pieces@[j]@ == p[j],
            views(out@) == p.take(k as int).map_values(|l: Seq<char>| strip_cr(l)),
        decreases n - k,
    {
        let line = strip_cr_exec(pieces[k].as_slice());
        let ghost before = out@;
        out.push(line);
        proof {
            assert(views(out@) =~= views(before).push(strip_cr(p[k as int])));
            assert(p.take(k + 1).map_values(|l: Seq<char>| strip_cr(l)) =~= p.take(k as int).map_values(
                |l: Seq<char>| strip_cr(l),
            ).push(strip_cr(p[k as int])));
        }
        k = k + 1;
    }
    if pieces[n - 1].len() > 0 {
        let last = vstd::slice::slice_to_vec(pieces[n - 1].as_slice());
        let ghost before = out@;
        out.push(last);
        assert(views(out@) =~= views(before).push(p.last()));
    }
    out
}

// ---------------------------------------------------------------------------
// Replacing, as `str::replace` does: every non-overlapping occurrence, left
// to right.

/// `s` with each occurrence of `pat` (found left to right, not
/// overlapping) replaced by `rep`.
pub open spec fn replace_all(s: Seq<char>, pat: Seq<char>, rep: Seq<char>) -> Seq<char>
    decreases s.len(),
{
    if pat.len() == 0 {
        s
    } else {
        match crate::seqs::find_pat(s, pat) {
            Some(i) => if 0 <= i && i + pat.len() <= s.len() {
                s.take(i) + rep + replace_all(s.skip(i + pat.len()), pat, rep)
            } else {
                s
            },
            None => s,
        }
    }
}

/// `str::replace` on chars, for a non-empty pattern.
pub fn replace_chars(s: &[char], pat: &[char], rep: &[char]) -> (r: Vec<char>)
    requires
        pat.len() > 0,
    ensures
        r@ == replace_all(s@, pat@, rep@),
{
    let mut out: Vec<char> = Vec::new();
    let mut start: usize = 0;
    assert(s@.skip(0) =~= s@);
    while start <= s.len()
        invariant
            start <= s.len(),
            pat.len() > 0,
            out@ + replace_all(s@.skip(start as int), pat@, rep@) == replace_all(s@, pat@, rep@),
        decreases s.len() + 1 - start,
    {
        let rest = slice_subrange(s, start, s.len());
        assert(rest@ == s@.skip(start as int));
        proof {
            crate::seqs::lemma_find_pat_facts(rest@, pat@);
        }
        match crate::seqs::find_chars(rest, pat) {
            Some(i) => {
                let mut head = vstd::slice::slice_to_vec(slice_subrange(rest, 0, i));
                out.append(&mut head);
                let mut r = vstd::slice::slice_to_vec(rep);
                out.append(&mut r);
                assert(rest@.skip(i + pat@.len()) =~= s@.skip(start + i + pat@.len()));
                assert(rest@.take(i as int) =~= rest@.subrange(0, i as int));
                start = start + i + pat.len();
            },
            None => {
                let mut tail = vstd::slice::slice_to_vec(rest);
                out.append(&mut tail);
                assert(out@ == replace_all(s@, pat@, rep@));
                return out;
            },
        }
    }
    out
}

/// `str::replace` on strings, for a non-empty pattern.
pub fn replace_str(s: &str, pat: &str, rep: &str) -> (r: String)
    requires
        pat@.len() > 0,
    ensures
        r@ == replace_all(s@, pat@, rep@),
{
    let a = chars_of(s);
    let b = chars_of(pat);
    let c = chars_of(rep);
    let v = replace_chars(a.as_slice(), b.as_slice(), c.as_slice());
    string_from_chars(v.as_slice())
}

// ---------------------------------------------------------------------------
// Byte lengths of UTF-8 text.

/// The number of bytes that encode `s` in UTF-8 (what `str::len` gives).
pub open spec fn utf8_len(s: Seq<char>) -> int {
    encode_utf8(s).len() as int
}

pub proof fn lemma_encode_utf8_append(a: Seq<char>, b: Seq<char>)
    ensures
        encode_utf8(a + b) == encode_utf8(a) + encode_utf8(b),
    decreases a.len(),
{
    if a.len() == 0 {
        assert(a + b =~= b);
    } else {
        assert((a + b).drop_first() =~= a.drop_first() + b);
        lemma_encode_utf8_append(a.drop_first(), b);
        assert(encode_utf8(a + b) =~= encode_utf8(a) + encode_utf8(b));
    }
}

/// `x` capped at `u64::MAX`.
pub open spec fn sat64(x: int) -> u64 {
    if x >= u64::MAX { u64::MAX } else { x as u64 }
}

/// The UTF-8 width of a char.
pub fn char_utf8_len(c: char) -> (r: usize)
    ensures
        r == encode_utf8(seq![c]).len(),
        1 <= r <= 4,
{
    let v = c as u32;
    proof {
        assert(seq![c].drop_first() =~= Seq::<char>::empty());
        vstd::utf8::char_is_scalar(c);
        reveal_with_fuel(encode_utf8, 2);
        assert(encode_utf8(seq![c]) =~= encode_scalar(c as u32));
    }
    if v < 0x80 {
        1
    } else if v < 0x800 {
        2
    } else if v < 0x10000 {
        3
    } else {
        4
    }
}

/// The UTF-8 length of `s`, capped at `u64::MAX`.
pub fn utf8_len_sat(s: &[char]) -> (r: u64)
    ensures
        r == sat64(utf8_len(s@)),
{
    let mut n: u64 = 0;
    let mut i: usize = 0;
    while i < s.len()
        invariant
            i <= s.len(),
            n == sat64(utf8_len(s@.take(i as int))),
        decreases s.len() - i,
    {
        let w = char_utf8_len(s[i]);
        proof {
            assert(s@.take(i + 1) =~= s@.take(i as int) + seq![s@[i as int]]);
            lemma_encode_utf8_append(s@.take(i as int), seq![s@[i as int]]);
        }
        n = if n > u64::MAX - (w as u64) {
            u64::MAX
        } else {
            n + w as u64
        };
        i = i + 1;
    }
    assert(s@.take(s.len() as int) =~= s@);
    n
}

// ---------------------------------------------------------------------------
// ASCII case.

pub open spec fn ascii_lower(c: char) -> char {
    if 'A' <= c <= 'Z' {
        ((c as u32) + 32) as char
    } else {
        c
    }
}

/// `str::to_ascii_lowercase`: ASCII letters lowered, everything else kept.
pub open spec fn to_ascii_lower(s: Seq<char>) -> Seq<char> {
    s.map_values(|c: char| ascii_lower(c))
}

pub fn to_ascii_lower_exec(s: &[char]) -> (r: Vec<char>)
    ensures
        r@ == to_ascii_lower(s@),
{
    let mut out: Vec<char> = Vec::new();
    let mut i: usize = 0;
    while i < s.len()
        invariant
            i <= s.len(),
            out@ == to_ascii_lower(s@.take(i as int)),
        decreases s.len() - i,
    {
        let c = s[i];
        let l = if 'A' <= c && c <= 'Z' {
            char_from_lower(c)
        } else {
            c
        };
        out.push(l);
        assert(to_ascii_lower(s@.take(i + 1)) =~= to_ascii_lower(s@.take(i as int)).push(ascii_lower(c)));
        i = i + 1;
    }
    assert(s@.take(s.len() as int) =~= s@);
    out
}

fn char_from_lower(c: char) -> (r: char)
    requires
        'A' <= c <= 'Z',
    ensures
        r == ((c as u32) + 32) as char,
{
    let v = (c as u32) + 32;
    match char_from_u32(v) {
        Some(l) => {
            proof {
                vstd::utf8::char_u32_cast(l, v);
            }
            l
        },
        None => c,
    }
}

/// The lines joined with `\n`.
pub open spec fn join_lines(ls: Seq<Seq<char>>) -> Seq<char>
    decreases ls.len(),
{
    if ls.len() == 0 {
        seq![]
    } else if ls.len() == 1 {
        ls[0]
    } else {
        join_lines(ls.drop_last()) + seq!['\n'] + ls.last()
    }
}

/// The lines joined with `\n`.
pub fn join_lines_exec(ls: &Vec<Vec<char>>) -> (r: Vec<char>)
    ensures
        r@ == join_lines(views(ls@)),
{
    let ghost v = views(ls@);
    let mut out: Vec<char> = Vec::new();
    let mut k: usize = 0;
    while k < ls.len()
        invariant
            k <= ls.len(),
            v == views(ls@),
            out@ == join_lines(v.take(k as int)),
        decreases ls.len() - k,
    {
        if k > 0 {
            out.push('\n');
        }
        let mut line = vstd::slice::slice_to_vec(ls[k].as_slice());
        out.append(&mut line);
        proof {
            assert(v.take(k + 1).drop_last() =~= v.take(k as int));
            if k == 0 {
                assert(out@ =~= join_lines(v.take(1)));
            } else {
                assert(out@ =~= join_lines(v.take(k + 1)));
            }
        }
        k = k + 1;
    }
    assert(v.take(ls.len() as int) =~= v);
    out
}

/// Skipping whitespace stops at the length or at a char that is not
/// whitespace, never before `i`.
pub proof fn lemma_skip_white(s: Seq<char>, i: int)
    requires
        0 <= i <= s.len(),
    ensures
        i <= skip_white(s, i) <= s.len(),
        skip_white(s, i) < s.len() ==> !is_white(s[skip_white(s, i)]),
    decreases s.len() - i,
{
    if i < s.len() && is_white(s[i]) {
        lemma_skip_white(s, i + 1);
    }
}

/// Skipping a word stops at the length or at whitespace, past every char
/// that is not whitespace.
pub proof fn lemma_skip_word(s: Seq<char>, i: int)
    requires
        0 <= i <= s.len(),
    ensures
        i <= skip_word(s, i) <= s.len(),
        i < s.len() && !is_white(s[i]) ==> skip_word(s, i) > i,
        skip_word(s, i) < s.len() ==> is_white(s[skip_word(s, i)]),
    decreases s.len() - i,
{
    if i < s.len() && !is_white(s[i]) {
        lemma_skip_word(s, i + 1);
    }
}

pub open spec fn is_digit_char(c: char) -> bool {
    '0' <= c <= '9'
}

/// The value of a run of decimal digits.
pub open spec fn digits_value(s: Seq<char>) -> int
    decreases s.len(),
{
    if s.len() == 0 {
        0
    } else {
        digits_value(s.drop_last()) * 10 + (s.last() as int - '0' as int)
    }
}

/// An unsigned decimal number as `str::parse` reads it: an optional `+`,
/// then one or more digits, and nothing else. Its value, which may be
/// too large for the target type.
pub open spec fn unsigned_text(s: Seq<char>) -> Option<int> {
    let d = unsigned_digits(s);
    if d.len() > 0 && forall|i: int| 0 <= i < d.len() ==> is_digit_char(#[trigger] d[i]) {
        Some(digits_value(d))
    } else {
        None
    }
}

/// The text after an optional leading `+`.
pub open spec fn unsigned_digits(s: Seq<char>) -> Seq<char> {
    if s.len() > 0 && s[0] == '+' {
        s.skip(1)
    } else {
        s
    }
}

pub open spec fn parse_usize_spec(s: Seq<char>) -> Option<usize> {
    match unsigned_text(s) {
        Some(v) => if v <= usize::MAX {
            Some(v as usize)
        } else {
            None
        },
        None => None,
    }
}

proof fn lemma_digits_value_grows(s: Seq<char>, k: int)
    requires
        0 <= k <= s.len(),
        forall|i: int| 0 <= i < s.len() ==> is_digit_char(#[trigger] s[i]),
    ensures
        digits_value(s.take(k)) <= digits_value(s),
        0 <= digits_value(s.take(k)),
    decreases s.len() - k,
{
    if k < s.len() {
        lemma_digits_value_grows(s, k + 1);
        assert(s.take(k + 1).drop_last() =~= s.take(k));
        assert(s.take(k + 1).last() == s[k]);
        assert(is_digit_char(s[k]));
    } else {
        assert(s.take(k) =~= s);
    }
    lemma_digits_value_nonneg(s.take(k));
}

proof fn lemma_digits_value_nonneg(s: Seq<char>)
    requires
        forall|i: int| 0 <= i < s.len() ==> is_digit_char(#[trigger] s[i]),
    ensures
        0 <= digits_value(s),
    decreases s.len(),
{
    if s.len() > 0 {
        assert forall|i: int| 0 <= i < s.drop_last().len() implies is_digit_char(#[trigger] s.drop_last()[i]) by {
            assert(s.drop_last()[i] == s[i]);
        }
        lemma_digits_value_nonneg(s.drop_last());
        assert(is_digit_char(s[s.len() - 1]));
    }
}

/// `s.parse::<usize>()`, as a value where it succeeds.
pub fn parse_usize(s: &str) -> (r: Option<usize>)
    ensures
        r == parse_usize_spec(s@),
{
    let v = chars_of(s);
    let start: usize = if v.len() > 0 && v[0] == '+' { 1 } else { 0 };
    let ghost d = unsigned_digits(s@);
    assert(d =~= v@.skip(start as int));
    if start >= v.len() {
        return None;
    }
    let mut n: usize = 0;
    let mut i: usize = start;
    while i < v.len()
        invariant
            start <= i <= v.len(),
            start < v.len(),
            v@ == s@,
            d == v@.skip(start as int),
            d == unsigned_digits(s@),
            forall|j: int| 0 <= j < i - start ==> is_digit_char(#[trigger] d[j]),
            n as int == digits_value(d.take(i - start)),
        decreases v.len() - i,
    {
        let c = v[i];
        proof {
            assert(d[i - start] == c);
        }
        if !('0' <= c && c <= '9') {
            proof {
                assert(!is_digit_char(d[i - start]));
            }
            return None;
        }
        let digit = (c as u32 - 0x30) as usize;
        proof {
            assert(d.take(i - start + 1).drop_last() =~= d.take(i - start));
            assert(d.take(i - start + 1).last() == c);
            assert(digit as int == c as int - '0' as int);
            assert(digits_value(d.take(i - start + 1)) == n * 10 + digit);
        }
        let m = match n.checked_mul(10) {
            Some(m) => m,
            None => {
                proof {
                    assert(forall|j: int| 0 <= j < i - start + 1 ==> is_digit_char(#[trigger] d[j]));
                    lemma_too_large(d, (i - start + 1) as int);
                }
                return None;
            },
        };
        n = match m.checked_add(digit) {
            Some(x) => x,
            None => {
                proof {
                    assert(forall|j: int| 0 <= j < i - start + 1 ==> is_digit_char(#[trigger] d[j]));
                    lemma_too_large(d, (i - start + 1) as int);
                }
                return None;
            },
        };
        i = i + 1;
    }
    proof {
        assert(d.take(d.len() as int) =~= d);
    }
    Some(n)
}

/// A run of digits whose prefix is already too large is too large, or not
/// all digits.
proof fn lemma_too_large(d: Seq<char>, k: int)
    requires
        0 < k <= d.len(),
        forall|j: int| 0 <= j < k ==> is_digit_char(#[trigger] d[j]),
        digits_value(d.take(k)) > usize::MAX,
    ensures
        !(forall|i: int| 0 <= i < d.len() ==> is_digit_char(#[trigger] d[i])) || digits_value(d) > usize::MAX,
{
    if forall|i: int| 0 <= i < d.len() ==> is_digit_char(#[trigger] d[i]) {
        lemma_digits_value_grows(d, k);
    }
}

} // verus!

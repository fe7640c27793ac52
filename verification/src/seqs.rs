//! Searching, splitting and number parsing over byte and character
//! sequences, stated over `Seq` and implemented over slices.
use vstd::prelude::*;
use vstd::slice::{slice_subrange, slice_to_vec};

verus! {

/// `i` is the first position of `s` holding `x`.
pub open spec fn is_first_index<T>(s: Seq<T>, x: T, i: int) -> bool {
    &&& 0 <= i < s.len()
    &&& s[i] == x
    &&& forall|j: int| 0 <= j < i ==> #[trigger] s[j] != x
}

/// Position of the first element of `s` equal to `x`.
pub open spec fn first_index_of<T>(s: Seq<T>, x: T) -> Option<int> {
    if exists|i: int| is_first_index(s, x, i) {
        Some(choose|i: int| is_first_index(s, x, i))
    } else {
        None
    }
}

/// Position of the last element of `s` equal to `x`.
pub open spec fn last_index_of<T>(s: Seq<T>, x: T) -> Option<int> {
    if exists|i: int| 0 <= i < s.len() && s[i] == x && forall|j: int| i < j < s.len() ==> s[j] != x {
        Some(choose|i: int| 0 <= i < s.len() && s[i] == x && forall|j: int| i < j < s.len() ==> s[j] != x)
    } else {
        None
    }
}

/// `pat` occurs in `s` at position `i`.
pub open spec fn occurs_at<T>(s: Seq<T>, pat: Seq<T>, i: int) -> bool {
    0 <= i && i + pat.len() <= s.len() && s.subrange(i, i + pat.len()) == pat
}

pub open spec fn is_first_occurrence<T>(s: Seq<T>, pat: Seq<T>, i: int) -> bool {
    occurs_at(s, pat, i) && forall|j: int| 0 <= j < i ==> !occurs_at(s, pat, j)
}

/// Position of the first occurrence of `pat` in `s`.
pub open spec fn find_pat<T>(s: Seq<T>, pat: Seq<T>) -> Option<int> {
    if exists|i: int| is_first_occurrence(s, pat, i) {
        Some(choose|i: int| is_first_occurrence(s, pat, i))
    } else {
        None
    }
}

/// `s` begins with `pre`.
pub open spec fn starts_with<T>(s: Seq<T>, pre: Seq<T>) -> bool {
    pre.len() <= s.len() && s.take(pre.len() as int) == pre
}

/// `s` ends with `suf`.
pub open spec fn ends_with<T>(s: Seq<T>, suf: Seq<T>) -> bool {
    suf.len() <= s.len() && s.skip(s.len() - suf.len()) == suf
}

/// The pieces of `s` between occurrences of `sep` (as `split` does: an
/// empty `s` gives one empty piece).
pub open spec fn split_seq<T>(s: Seq<T>, sep: T) -> Seq<Seq<T>>
    decreases s.len(),
{
    match first_index_of(s, sep) {
        Some(i) => if 0 <= i < s.len() {
            seq![s.take(i)] + split_seq(s.skip(i + 1), sep)
        } else {
            seq![s]
        },
        None => seq![s],
    }
}

pub proof fn lemma_first_index_some<T>(s: Seq<T>, x: T, i: int)
    requires
        is_first_index(s, x, i),
    ensures
        first_index_of(s, x) == Some(i),
{
    let k = choose|k: int| is_first_index(s, x, k);
    assert(is_first_index(s, x, k));
    if k < i {
        assert(s[k] != x);
    } else if i < k {
        assert(s[i] != x);
    }
}

/// An element equal to `x` exists exactly when `first_index_of` finds one.
pub proof fn lemma_first_index_exists<T>(s: Seq<T>, x: T, i: int)
    requires
        0 <= i < s.len(),
        s[i] == x,
    ensures
        first_index_of(s, x) is Some,
        first_index_of(s, x)->0 <= i,
        is_first_index(s, x, first_index_of(s, x)->0),
    decreases i,
{
    if forall|j: int| 0 <= j < i ==> #[trigger] s[j] != x {
        lemma_first_index_some(s, x, i);
    } else {
        let j = choose|j: int| 0 <= j < i && #[trigger] s[j] == x;
        lemma_first_index_exists(s, x, j);
    }
}

pub proof fn lemma_first_index_facts<T>(s: Seq<T>, x: T)
    ensures
        first_index_of(s, x) matches Some(i) ==> is_first_index(s, x, i),
        first_index_of(s, x) is None ==> forall|j: int| 0 <= j < s.len() ==> #[trigger] s[j] != x,
{
    if first_index_of(s, x) is None {
        assert forall|j: int| 0 <= j < s.len() implies #[trigger] s[j] != x by {
            if s[j] == x {
                lemma_first_index_exists(s, x, j);
            }
        }
    }
}

/// The first `x` in `s` is still the first one in any extension of `s`.
pub proof fn lemma_first_index_extend<T>(s: Seq<T>, t: Seq<T>, x: T)
    requires
        first_index_of(s, x) is Some,
    ensures
        first_index_of(s + t, x) == first_index_of(s, x),
{
    lemma_first_index_facts(s, x);
    let i = first_index_of(s, x)->0;
    assert(is_first_index(s + t, x, i)) by {
        assert forall|j: int| 0 <= j < i implies #[trigger] (s + t)[j] != x by {
            assert((s + t)[j] == s[j]);
        }
    }
    lemma_first_index_some(s + t, x, i);
}

pub proof fn lemma_find_pat_some<T>(s: Seq<T>, pat: Seq<T>, i: int)
    requires
        is_first_occurrence(s, pat, i),
    ensures
        find_pat(s, pat) == Some(i),
{
    let k = choose|k: int| is_first_occurrence(s, pat, k);
    assert(is_first_occurrence(s, pat, k));
    if k < i {
        assert(!occurs_at(s, pat, k));
    } else if i < k {
        assert(!occurs_at(s, pat, i));
    }
}

pub proof fn lemma_find_pat_exists<T>(s: Seq<T>, pat: Seq<T>, i: int)
    requires
        occurs_at(s, pat, i),
    ensures
        find_pat(s, pat) is Some,
        find_pat(s, pat)->0 <= i,
        is_first_occurrence(s, pat, find_pat(s, pat)->0),
    decreases i,
{
    if forall|j: int| 0 <= j < i ==> !occurs_at(s, pat, j) {
        lemma_find_pat_some(s, pat, i);
    } else {
        let j = choose|j: int| 0 <= j < i && !!occurs_at(s, pat, j);
        lemma_find_pat_exists(s, pat, j);
    }
}

pub proof fn lemma_find_pat_facts<T>(s: Seq<T>, pat: Seq<T>)
    ensures
        find_pat(s, pat) matches Some(i) ==> is_first_occurrence(s, pat, i),
        find_pat(s, pat) is None ==> forall|j: int| !occurs_at(s, pat, j),
{
    if find_pat(s, pat) is None {
        assert forall|j: int| !occurs_at(s, pat, j) by {
            if occurs_at(s, pat, j) {
                lemma_find_pat_exists(s, pat, j);
            }
        }
    }
}

pub proof fn lemma_find_pat_extend<T>(s: Seq<T>, t: Seq<T>, pat: Seq<T>)
    requires
        find_pat(s, pat) is Some,
    ensures
        find_pat(s + t, pat) == find_pat(s, pat),
{
    lemma_find_pat_facts(s, pat);
    let i = find_pat(s, pat)->0;
    assert((s + t).subrange(i, i + pat.len()) =~= s.subrange(i, i + pat.len()));
    assert forall|j: int| 0 <= j < i implies !occurs_at(s + t, pat, j) by {
        assert((s + t).subrange(j, j + pat.len()) =~= s.subrange(j, j + pat.len()));
        assert(!occurs_at(s, pat, j));
    }
    lemma_find_pat_some(s + t, pat, i);
}

/// `split_seq` only looks at the part of `s` it splits.
pub proof fn lemma_split_seq_len<T>(s: Seq<T>, sep: T)
    ensures
        split_seq(s, sep).len() >= 1,
        split_seq(s, sep)[0] == (match first_index_of(s, sep) {
            Some(i) => s.take(i),
            None => s,
        }),
    decreases s.len(),
{
    lemma_first_index_facts(s, sep);
}

// ---------------------------------------------------------------------------
// Executable searches over byte slices.

/// Position of the first byte in `s` equal to `x`.
pub fn find_byte(s: &[u8], x: u8) -> (r: Option<usize>)
    ensures
        r matches Some(i) ==> first_index_of(s@, x) == Some(i as int),
        r is None ==> first_index_of(s@, x) is None,
        r is None <==> !s@.contains(x),
{
    let mut i: usize = 0;
    while i < s.len()
        invariant
            i <= s.len(),
            forall|j: int| 0 <= j < i ==> s@[j] != x,
        decreases s.len() - i,
    {
        if s[i] == x {
            proof {
                lemma_first_index_some(s@, x, i as int);
            }
            return Some(i);
        }
        i = i + 1;
    }
    proof {
        lemma_first_index_facts(s@, x);
    }
    None
}

/// Position of the first occurrence of `pat` in `s`.
pub fn find_bytes(s: &[u8], pat: &[u8]) -> (r: Option<usize>)
    requires
        pat.len() > 0,
    ensures
        r matches Some(i) ==> find_pat(s@, pat@) == Some(i as int),
        r is None ==> find_pat(s@, pat@) is None,
{
    if pat.len() > s.len() {
        proof {
            lemma_find_pat_facts(s@, pat@);
        }
        return None;
    }
    let mut i: usize = 0;
    while i <= s.len() - pat.len()
        invariant
            0 < pat.len() <= s.len(),
            i <= s.len() - pat.len() + 1,
            forall|j: int| 0 <= j < i ==> !occurs_at(s@, pat@, j),
        decreases s.len() - i,
    {
        let mut k: usize = 0;
        let mut same = true;
        while k < pat.len()
            invariant
                i + pat.len() <= s.len(),
                k <= pat.len(),
                same ==> forall|m: int| 0 <= m < k ==> s@[i + m] == pat@[m],
                !same ==> !occurs_at(s@, pat@, i as int),
            decreases pat.len() - k,
        {
            if s[i + k] != pat[k] {
                proof {
                    assert(s@.subrange(i as int, i + pat.len())[k as int] == s@[i + k]);
                }
                same = false;
            }
            k = k + 1;
        }
        if same {
            proof {
                assert(s@.subrange(i as int, i + pat@.len()) =~= pat@);
                lemma_find_pat_some(s@, pat@, i as int);
            }
            return Some(i);
        }
        i = i + 1;
    }
    proof {
        assert forall|j: int| !occurs_at(s@, pat@, j) by {
            if 0 <= j && j < i {
            } else if j >= i {
            }
        }
        lemma_find_pat_facts(s@, pat@);
        if find_pat(s@, pat@) is Some {
            assert(occurs_at(s@, pat@, find_pat(s@, pat@)->0));
        }
    }
    None
}

/// The pieces of `s` between the bytes equal to `sep`.
pub fn split_bytes(s: &[u8], sep: u8) -> (r: Vec<Vec<u8>>)
    ensures
        r@.len() == split_seq(s@, sep).len(),
        forall|i: int| 0 <= i < r@.len() ==> #[trigger] r@[i]@ == split_seq(s@, sep)[i],
{
    let mut out: Vec<Vec<u8>> = Vec::new();
    let mut start: usize = 0;
    let ghost mut done: Seq<Seq<u8>> = seq![];
    assert(s@.skip(0) =~= s@);
    loop
        invariant
            start <= s.len(),
            out@.len() == done.len(),
            forall|i: int| 0 <= i < out@.len() ==> #[trigger] out@[i]@ == done[i],
            split_seq(s@, sep) == done + split_seq(s@.skip(start as int), sep),
        decreases s.len() - start,
    {
        let rest = slice_subrange(s, start, s.len());
        assert(rest@ == s@.skip(start as int));
        match find_byte(rest, sep) {
            Some(k) => {
                let piece = slice_to_vec(slice_subrange(rest, 0, k));
                proof {
                    assert(piece@ == rest@.take(k as int));
                    assert(rest@.skip(k + 1) =~= s@.skip(start + k + 1));
                    assert(split_seq(rest@, sep) == seq![rest@.take(k as int)] + split_seq(
                        rest@.skip(k + 1),
                        sep,
                    ));
                    done = done + seq![piece@];
                    assert(split_seq(s@, sep) =~= done + split_seq(s@.skip(start + k + 1), sep));
                }
                out.push(piece);
                start = start + k + 1;
            },
            None => {
                let piece = slice_to_vec(rest);
                proof {
                    assert(split_seq(rest@, sep) == seq![rest@]);
                    done = done + seq![piece@];
                    assert(split_seq(s@, sep) =~= done);
                }
                out.push(piece);
                return out;
            },
        }
    }
}

// Executable searches over char slices.

/// Position of the first char in `s` equal to `x`.
pub fn find_char(s: &[char], x: char) -> (r: Option<usize>)
    ensures
        r matches Some(i) ==> first_index_of(s@, x) == Some(i as int),
        r is None ==> first_index_of(s@, x) is None,
        r is None <==> !s@.contains(x),
{
    let mut i: usize = 0;
    while i < s.len()
        invariant
            i <= s.len(),
            forall|j: int| 0 <= j < i ==> s@[j] != x,
        decreases s.len() - i,
    {
        if s[i] == x {
            proof {
                lemma_first_index_some(s@, x, i as int);
            }
            return Some(i);
        }
        i = i + 1;
    }
    proof {
        lemma_first_index_facts(s@, x);
    }
    None
}

/// Position of the first occurrence of `pat` in `s`.
pub fn find_chars(s: &[char], pat: &[char]) -> (r: Option<usize>)
    requires
        pat.len() > 0,
    ensures
        r matches Some(i) ==> find_pat(s@, pat@) == Some(i as int),
        r is None ==> find_pat(s@, pat@) is None,
{
    if pat.len() > s.len() {
        proof {
            lemma_find_pat_facts(s@, pat@);
        }
        return None;
    }
    let mut i: usize = 0;
    while i <= s.len() - pat.len()
        invariant
            0 < pat.len() <= s.len(),
            i <= s.len() - pat.len() + 1,
            forall|j: int| 0 <= j < i ==> !occurs_at(s@, pat@, j),
        decreases s.len() - i,
    {
        let mut k: usize = 0;
        let mut same = true;
        while k < pat.len()
            invariant
                i + pat.len() <= s.len(),
                k <= pat.len(),
                same ==> forall|m: int| 0 <= m < k ==> s@[i + m] == pat@[m],
                !same ==> !occurs_at(s@, pat@, i as int),
            decreases pat.len() - k,
        {
            if s[i + k] != pat[k] {
                proof {
                    assert(s@.subrange(i as int, i + pat.len())[k as int] == s@[i + k]);
                }
                same = false;
            }
            k = k + 1;
        }
        if same {
            proof {
                assert(s@.subrange(i as int, i + pat@.len()) =~= pat@);
                lemma_find_pat_some(s@, pat@, i as int);
            }
            return Some(i);
        }
        i = i + 1;
    }
    proof {
        assert forall|j: int| !occurs_at(s@, pat@, j) by {
            if 0 <= j && j < i {
            } else if j >= i {
            }
        }
        lemma_find_pat_facts(s@, pat@);
        if find_pat(s@, pat@) is Some {
            assert(occurs_at(s@, pat@, find_pat(s@, pat@)->0));
        }
    }
    None
}

/// The pieces of `s` between the chars equal to `sep`.
pub fn split_chars(s: &[char], sep: char) -> (r: Vec<Vec<char>>)
    ensures
        r@.len() == split_seq(s@, sep).len(),
        forall|i: int| 0 <= i < r@.len() ==> #[trigger] r@[i]@ == split_seq(s@, sep)[i],
{
    let mut out: Vec<Vec<char>> = Vec::new();
    let mut start: usize = 0;
    let ghost mut done: Seq<Seq<char>> = seq![];
    assert(s@.skip(0) =~= s@);
    loop
        invariant
            start <= s.len(),
            out@.len() == done.len(),
            forall|i: int| 0 <= i < out@.len() ==> #[trigger] out@[i]@ == done[i],
            split_seq(s@, sep) == done + split_seq(s@.skip(start as int), sep),
        decreases s.len() - start,
    {
        let rest = slice_subrange(s, start, s.len());
        assert(rest@ == s@.skip(start as int));
        match find_char(rest, sep) {
            Some(k) => {
                let piece = slice_to_vec(slice_subrange(rest, 0, k));
                proof {
                    assert(piece@ == rest@.take(k as int));
                    assert(rest@.skip(k + 1) =~= s@.skip(start + k + 1));
                    assert(split_seq(rest@, sep) == seq![rest@.take(k as int)] + split_seq(
                        rest@.skip(k + 1),
                        sep,
                    ));
                    done = done + seq![piece@];
                    assert(split_seq(s@, sep) =~= done + split_seq(s@.skip(start + k + 1), sep));
                }
                out.push(piece);
                start = start + k + 1;
            },
            None => {
                let piece = slice_to_vec(rest);
                proof {
                    assert(split_seq(rest@, sep) == seq![rest@]);
                    done = done + seq![piece@];
                    assert(split_seq(s@, sep) =~= done);
                }
                out.push(piece);
                return out;
            },
        }
    }
}

// ---------------------------------------------------------------------------
// Decimal numbers, as `str::parse::<u32>` reads them.

pub open spec fn is_digit(c: u8) -> bool {
    0x30 <= c <= 0x39
}

/// The decimal value of a run of digits.
pub open spec fn decimal_value(d: Seq<u8>) -> nat
    decreases d.len(),
{
    if d.len() == 0 {
        0
    } else {
        decimal_value(d.drop_last()) * 10 + (d.last() - 0x30) as nat
    }
}

/// The digits `str::parse` reads: an optional leading `+` is skipped.
pub open spec fn number_digits(s: Seq<u8>) -> Seq<u8> {
    if s.len() > 1 && s[0] == 0x2b {
        s.drop_first()
    } else {
        s
    }
}

/// `str::parse::<u32>`: optional `+`, then at least one ASCII digit and
/// nothing else, with a value that fits in 32 bits.
pub open spec fn parse_u32(s: Seq<u8>) -> Option<u32> {
    let d = number_digits(s);
    if d.len() > 0 && (forall|i: int| 0 <= i < d.len() ==> is_digit(#[trigger] d[i]))
        && decimal_value(d) <= u32::MAX {
        Some(decimal_value(d) as u32)
    } else {
        None
    }
}

proof fn lemma_decimal_value_monotone(d: Seq<u8>, k: int)
    requires
        0 <= k <= d.len(),
        forall|i: int| 0 <= i < d.len() ==> is_digit(#[trigger] d[i]),
    ensures
        decimal_value(d.take(k)) <= decimal_value(d),
    decreases d.len() - k,
{
    if k < d.len() {
        lemma_decimal_value_monotone(d, k + 1);
        assert(d.take(k + 1).drop_last() =~= d.take(k));
    } else {
        assert(d.take(k) =~= d);
    }
}

/// `str::parse::<u32>` on the bytes of `s`.
pub fn parse_num(s: &[u8]) -> (r: Option<u32>)
    ensures
        r == parse_u32(s@),
{
    let start: usize = if s.len() > 1 && s[0] == 0x2b {
        1
    } else {
        0
    };
    let ghost d = number_digits(s@);
    assert(d =~= s@.skip(start as int));
    if start >= s.len() {
        return None;
    }
    let mut v: u32 = 0;
    let mut i: usize = start;
    while i < s.len()
        invariant
            start <= i <= s.len(),
            d == number_digits(s@),
            d =~= s@.skip(start as int),
            forall|j: int| 0 <= j < i - start ==> is_digit(#[trigger] d[j]),
            v == decimal_value(d.take(i - start)),
        decreases s.len() - i,
    {
        let c = s[i];
        if c < 0x30 || c > 0x39 {
            assert(!is_digit(d[i - start]));
            return None;
        }
        assert(d.take(i - start + 1).drop_last() =~= d.take(i - start));
        assert(d.take(i - start + 1).last() == c);
        assert(d[i - start] == c);
        let digit = (c - 0x30) as u32;
        match v.checked_mul(10) {
            Some(t) => match t.checked_add(digit) {
                Some(nv) => {
                    v = nv;
                },
                None => {
                    proof {
                        assert forall|j: int| 0 <= j < i - start + 1 implies is_digit(
                            #[trigger] d[j],
                        ) by {
                            if j == i - start {
                            }
                        }
                        if forall|j: int| 0 <= j < d.len() ==> is_digit(#[trigger] d[j]) {
                            lemma_decimal_value_monotone(d, i - start + 1);
                        }
                    }
                    return None;
                },
            },
            None => {
                proof {
                    if forall|j: int| 0 <= j < d.len() ==> is_digit(#[trigger] d[j]) {
                        lemma_decimal_value_monotone(d, i - start + 1);
                    }
                }
                return None;
            },
        }
        i = i + 1;
    }
    assert(d.take(i - start) =~= d);
    Some(v)
}

// ---------------------------------------------------------------------------
// Hexadecimal numbers, as `u32::from_str_radix(_, 16)` reads them.

pub open spec fn is_hex_digit(c: u8) -> bool {
    is_digit(c) || (0x61 <= c <= 0x66) || (0x41 <= c <= 0x46)
}

pub open spec fn hex_digit_value(c: u8) -> nat {
    if is_digit(c) {
        (c - 0x30) as nat
    } else if 0x61 <= c <= 0x66 {
        (c - 0x61 + 10) as nat
    } else {
        (c - 0x41 + 10) as nat
    }
}

/// The value of a run of hex digits.
pub open spec fn hex_value(d: Seq<u8>) -> nat
    decreases d.len(),
{
    if d.len() == 0 {
        0
    } else {
        hex_value(d.drop_last()) * 16 + hex_digit_value(d.last())
    }
}

/// `u32::from_str_radix(s, 16)`: optional `+`, then at least one hex digit
/// and nothing else, with a value that fits in 32 bits.
pub open spec fn parse_hex_u32(s: Seq<u8>) -> Option<u32> {
    let d = number_digits(s);
    if d.len() > 0 && (forall|i: int| 0 <= i < d.len() ==> is_hex_digit(#[trigger] d[i]))
        && hex_value(d) <= u32::MAX {
        Some(hex_value(d) as u32)
    } else {
        None
    }
}

proof fn lemma_hex_value_monotone(d: Seq<u8>, k: int)
    requires
        0 <= k <= d.len(),
    ensures
        hex_value(d.take(k)) <= hex_value(d),
    decreases d.len() - k,
{
    if k < d.len() {
        lemma_hex_value_monotone(d, k + 1);
        assert(d.take(k + 1).drop_last() =~= d.take(k));
    } else {
        assert(d.take(k) =~= d);
    }
}

/// `u32::from_str_radix(_, 16)` on the bytes of `s`.
pub fn parse_hex(s: &[u8]) -> (r: Option<u32>)
    ensures
        r == parse_hex_u32(s@),
{
    let start: usize = if s.len() > 1 && s[0] == 0x2b {
        1
    } else {
        0
    };
    let ghost d = number_digits(s@);
    assert(d =~= s@.skip(start as int));
    if start >= s.len() {
        return None;
    }
    let mut v: u32 = 0;
    let mut i: usize = start;
    while i < s.len()
        invariant
            start <= i <= s.len(),
            d == number_digits(s@),
            d =~= s@.skip(start as int),
            forall|j: int| 0 <= j < i - start ==> is_hex_digit(#[trigger] d[j]),
            v == hex_value(d.take(i - start)),
        decreases s.len() - i,
    {
        let c = s[i];
        let digit: u32 = if 0x30 <= c && c <= 0x39 {
            (c - 0x30) as u32
        } else if 0x61 <= c && c <= 0x66 {
            (c - 0x61 + 10) as u32
        } else if 0x41 <= c && c <= 0x46 {
            (c - 0x41 + 10) as u32
        } else {
            assert(!is_hex_digit(d[i - start]));
            return None;
        };
        assert(d.take(i - start + 1).drop_last() =~= d.take(i - start));
        assert(d.take(i - start + 1).last() == c);
        assert(d[i - start] == c);
        match v.checked_mul(16) {
            Some(t) => match t.checked_add(digit) {
                Some(nv) => {
                    v = nv;
                },
                None => {
                    proof {
                        lemma_hex_value_monotone(d, i - start + 1);
                    }
                    return None;
                },
            },
            None => {
                proof {
                    lemma_hex_value_monotone(d, i - start + 1);
                }
                return None;
            },
        }
        i = i + 1;
    }
    assert(d.take(i - start) =~= d);
    Some(v)
}

/// The two byte slices are equal.
pub fn bytes_eq(a: &[u8], b: &[u8]) -> (r: bool)
    ensures
        r == (a@ == b@),
{
    if a.len() != b.len() {
        return false;
    }
    let mut i: usize = 0;
    while i < a.len()
        invariant
            i <= a.len(),
            a.len() == b.len(),
            forall|j: int| 0 <= j < i ==> a@[j] == b@[j],
        decreases a.len() - i,
    {
        if a[i] != b[i] {
            return false;
        }
        i = i + 1;
    }
    assert(a@ =~= b@);
    true
}

} // verus!

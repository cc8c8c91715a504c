//! Text as bytes: literals, whitespace, searching, tokens and decimal numbers.
//!
//! Everything that travels between the library and an engine, and everything
//! written to a PGN document, is ASCII. The library therefore keeps text as
//! `Vec<u8>` and its contracts speak of `Seq<u8>`.
use vstd::prelude::*;
use vstd::slice::*;
use vstd::string::*;

verus! {

/// The bytes of a string, as Rust stores them.
pub open spec fn lit(s: &str) -> Seq<u8> {
    s.spec_bytes()
}

/// Whitespace: tab, line feed, vertical tab, form feed, carriage return, space.
pub open spec fn is_space(b: u8) -> bool {
    b == 32 || (9 <= b && b <= 13)
}

/// A decimal digit.
pub open spec fn is_digit(b: u8) -> bool {
    48 <= b && b <= 57
}

/// Tests a byte for whitespace.
pub fn space(b: u8) -> (r: bool)
    ensures
        r == is_space(b),
{
    b == 32 || (9 <= b && b <= 13)
}

/// Compares two texts byte by byte.
pub fn same(a: &[u8], b: &[u8]) -> (r: bool)
    ensures
        r == (a@ == b@),
{
    if a.len() != b.len() {
        return false;
    }
    let mut i: usize = 0;
    while i < a.len()
        invariant
            a@.len() == b@.len(),
            i <= a@.len(),
            forall|j: int| 0 <= j < i ==> a@[j] == b@[j],
        decreases a@.len() - i,
    {
        if a[i] != b[i] {
            return false;
        }
        i += 1;
    }
    assert(a@ =~= b@);
    true
}

/// Compares a text with a literal.
pub fn is(a: &[u8], word: &str) -> (r: bool)
    ensures
        r == (a@ == lit(word)),
{
    same(a, word.as_bytes())
}

/// Appends `part` to `out`.
pub fn put(out: &mut Vec<u8>, part: &[u8])
    ensures
        final(out)@ == old(out)@ + part@,
{
    let mut i: usize = 0;
    while i < part.len()
        invariant
            i <= part@.len(),
            out@ == old(out)@ + part@.subrange(0, i as int),
        decreases part@.len() - i,
    {
        out.push(part[i]);
        i += 1;
    }
    assert(part@.subrange(0, part@.len() as int) =~= part@);
}

/// Appends a literal to `out`.
pub fn put_lit(out: &mut Vec<u8>, word: &str)
    ensures
        final(out)@ == old(out)@ + lit(word),
{
    put(out, word.as_bytes());
}

/// Copies the bytes `from..to` of `s`.
pub fn copy(s: &[u8], from: usize, to: usize) -> (r: Vec<u8>)
    requires
        from <= to <= s@.len(),
    ensures
        r@ == s@.subrange(from as int, to as int),
{
    let mut r: Vec<u8> = Vec::new();
    put(&mut r, slice_subrange(s, from, to));
    r
}

/// The first index at or after `i` that holds no whitespace, or the length.
pub open spec fn skip_spaces(s: Seq<u8>, i: int) -> int
    decreases s.len() - i,
{
    if 0 <= i < s.len() && is_space(s[i]) {
        skip_spaces(s, i + 1)
    } else {
        i
    }
}

/// The first index at or after `i` that holds whitespace, or the length.
pub open spec fn skip_word(s: Seq<u8>, i: int) -> int
    decreases s.len() - i,
{
    if 0 <= i < s.len() && !is_space(s[i]) {
        skip_word(s, i + 1)
    } else {
        i
    }
}

/// The end of the text once trailing whitespace is cut, never before `lo`.
pub open spec fn cut_spaces(s: Seq<u8>, lo: int, hi: int) -> int
    decreases hi - lo,
{
    if lo < hi <= s.len() && is_space(s[hi - 1]) {
        cut_spaces(s, lo, hi - 1)
    } else {
        hi
    }
}

/// The text without leading and trailing whitespace.
pub open spec fn trimmed(s: Seq<u8>) -> Seq<u8> {
    let lo = skip_spaces(s, 0);
    s.subrange(lo, cut_spaces(s, lo, s.len() as int))
}

/// `skip_spaces` stays within the text and stops at a byte that is no whitespace.
pub proof fn lemma_skip_spaces(s: Seq<u8>, i: int)
    requires
        0 <= i <= s.len(),
    ensures
        i <= skip_spaces(s, i) <= s.len(),
        forall|j: int| i <= j < skip_spaces(s, i) ==> is_space(s[j]),
        skip_spaces(s, i) < s.len() ==> !is_space(s[skip_spaces(s, i)]),
    decreases s.len() - i,
{
    if i < s.len() && is_space(s[i]) {
        lemma_skip_spaces(s, i + 1);
    }
}

/// Cuts leading and trailing whitespace.
pub fn trim(s: &[u8]) -> (r: &[u8])
    ensures
        r@ == trimmed(s@),
{
    let mut lo: usize = 0;
    while lo < s.len() && space(s[lo])
        invariant
            lo <= s@.len(),
            skip_spaces(s@, 0) == skip_spaces(s@, lo as int),
        decreases s@.len() - lo,
    {
        lo += 1;
    }
    let mut hi: usize = s.len();
    while lo < hi && space(s[hi - 1])
        invariant
            lo <= hi <= s@.len(),
            cut_spaces(s@, lo as int, s@.len() as int) == cut_spaces(s@, lo as int, hi as int),
        decreases hi - lo,
    {
        hi -= 1;
    }
    slice_subrange(s, lo, hi)
}

/// The words of a text: its maximal runs of bytes that are no whitespace,
/// from index `i` on, in order.
pub open spec fn words_from(s: Seq<u8>, i: int) -> Seq<Seq<u8>>
    decreases s.len() - i,
{
    let start = skip_spaces(s, i);
    let end = skip_word(s, start);
    if 0 <= i <= start < end <= s.len() {
        seq![s.subrange(start, end)] + words_from(s, end)
    } else {
        Seq::empty()
    }
}

/// The words of a text.
pub open spec fn words(s: Seq<u8>) -> Seq<Seq<u8>> {
    words_from(s, 0)
}

/// The views of a list of texts.
pub open spec fn views(v: Seq<Vec<u8>>) -> Seq<Seq<u8>> {
    Seq::new(v.len(), |i: int| v[i]@)
}

/// Splits a text into its words.
pub fn split(s: &[u8]) -> (r: Vec<Vec<u8>>)
    ensures
        views(r@) == words(s@),
{
    let mut r: Vec<Vec<u8>> = Vec::new();
    let mut i: usize = 0;
    loop
        invariant
            i <= s@.len(),
            words(s@) == views(r@) + words_from(s@, i as int),
        ensures
            views(r@) == words(s@),
        decreases s@.len() - i,
    {
        let mut start: usize = i;
        while start < s.len() && space(s[start])
            invariant
                i <= start <= s@.len(),
                skip_spaces(s@, i as int) == skip_spaces(s@, start as int),
            decreases s@.len() - start,
        {
            start += 1;
        }
        let mut end: usize = start;
        while end < s.len() && !space(s[end])
            invariant
                start <= end <= s@.len(),
                skip_word(s@, start as int) == skip_word(s@, end as int),
            decreases s@.len() - end,
        {
            end += 1;
        }
        if start == end {
            assert(words_from(s@, i as int) =~= Seq::<Seq<u8>>::empty());
            assert(views(r@) + Seq::<Seq<u8>>::empty() =~= views(r@));
            break;
        }
        let ghost before = r@;
        r.push(copy(s, start, end));
        assert(views(r@) =~= views(before) + seq![s@.subrange(start as int, end as int)]);
        assert(words(s@) =~= views(r@) + words_from(s@, end as int));
        i = end;
    }
    r
}

/// Whether `pat` stands in `s` at index `i`.
pub open spec fn occurs_at(s: Seq<u8>, pat: Seq<u8>, i: int) -> bool {
    0 <= i && i + pat.len() <= s.len() && s.subrange(i, i + pat.len()) == pat
}

/// The first index at or after `i` at which `pat` stands in `s`.
pub open spec fn find_from(s: Seq<u8>, pat: Seq<u8>, i: int) -> Option<int>
    decreases s.len() + 1 - i,
{
    if i < 0 || i + pat.len() > s.len() {
        None
    } else if occurs_at(s, pat, i) {
        Some(i)
    } else {
        find_from(s, pat, i + 1)
    }
}

/// The first index at which `pat` stands in `s`.
pub open spec fn find(s: Seq<u8>, pat: Seq<u8>) -> Option<int> {
    find_from(s, pat, 0)
}

/// `find_from` returns an occurrence before which there is none, and `None`
/// only where there is no occurrence at all.
pub proof fn lemma_find_from(s: Seq<u8>, pat: Seq<u8>, i: int)
    requires
        0 <= i,
    ensures
        match find_from(s, pat, i) {
            Some(k) => i <= k && occurs_at(s, pat, k) && forall|j: int|
                i <= j < k ==> !occurs_at(s, pat, j),
            None => forall|j: int| i <= j ==> !occurs_at(s, pat, j),
        },
    decreases s.len() + 1 - i,
{
    if i + pat.len() > s.len() {
    } else if occurs_at(s, pat, i) {
    } else {
        lemma_find_from(s, pat, i + 1);
    }
}

/// Whether `pat` stands in `s` at index `i`.
fn stands_at(s: &[u8], pat: &[u8], i: usize) -> (r: bool)
    requires
        i + pat@.len() <= s@.len(),
    ensures
        r == occurs_at(s@, pat@, i as int),
{
    let n: usize = s.len();
    let end: usize = i + pat.len();
    same(slice_subrange(s, i, end), pat)
}

/// Finds the first place at which `pat` stands in `s`.
pub fn search(s: &[u8], pat: &[u8]) -> (r: Option<usize>)
    ensures
        match r {
            Some(k) => find(s@, pat@) == Some(k as int) && k + pat@.len() <= s@.len(),
            None => find(s@, pat@) is None,
        },
{
    if pat.len() > s.len() {
        return None;
    }
    let last: usize = s.len() - pat.len();
    let mut i: usize = 0;
    loop
        invariant
            last == s@.len() - pat@.len(),
            i <= last,
            find(s@, pat@) == find_from(s@, pat@, i as int),
        decreases last - i,
    {
        if stands_at(s, pat, i) {
            return Some(i);
        }
        if i == last {
            return None;
        }
        i += 1;
    }
}

/// The decimal digits of a natural number, without leading zeros.
pub open spec fn decimal(n: nat) -> Seq<u8>
    decreases n,
{
    if n < 10 {
        seq![(48 + n) as u8]
    } else {
        decimal(n / 10).push((48 + n % 10) as u8)
    }
}

/// The decimal form of an integer, with a minus sign where it is negative.
pub open spec fn signed_decimal(i: int) -> Seq<u8> {
    if i < 0 {
        seq![45u8] + decimal((-i) as nat)
    } else {
        decimal(i as nat)
    }
}

/// Appends the decimal digits of `n` to `out`.
pub fn put_decimal(out: &mut Vec<u8>, n: u64)
    ensures
        final(out)@ == old(out)@ + decimal(n as nat),
{
    let mut digits: Vec<u8> = Vec::new();
    let mut rest: u64 = n;
    while rest >= 10
        invariant
            decimal(n as nat) == decimal(rest as nat) + digits@.reverse(),
        decreases rest,
    {
        let d: u8 = (48 + rest % 10) as u8;
        let ghost before = digits@;
        digits.push(d);
        assert(digits@.reverse() =~= seq![d] + before.reverse());
        assert(decimal(rest as nat) =~= decimal((rest / 10) as nat) + seq![d]);
        rest = rest / 10;
        assert(decimal(n as nat) =~= decimal(rest as nat) + digits@.reverse());
    }
    out.push((48 + rest) as u8);
    let ghost head = out@;
    let mut k: usize = digits.len();
    while k > 0
        invariant
            k <= digits@.len(),
            out@ == head + digits@.subrange(k as int, digits@.len() as int).reverse(),
        decreases k,
    {
        k -= 1;
        let ghost before = out@;
        out.push(digits[k]);
        assert(digits@.subrange(k as int, digits@.len() as int).reverse() =~= digits@.subrange(
            k + 1,
            digits@.len() as int,
        ).reverse().push(digits@[k as int]));
    }
    assert(digits@.subrange(0, digits@.len() as int) =~= digits@);
    assert(out@ =~= old(out)@ + decimal(n as nat));
}

/// Appends the decimal form of `i` to `out`.
pub fn put_signed(out: &mut Vec<u8>, i: i64)
    ensures
        final(out)@ == old(out)@ + signed_decimal(i as int),
{
    if i < 0 {
        out.push(45u8);
        let m: u64 = if i == i64::MIN {
            9223372036854775808u64
        } else {
            (-i) as u64
        };
        put_decimal(out, m);
        assert(out@ =~= old(out)@ + signed_decimal(i as int));
    } else {
        put_decimal(out, i as u64);
    }
}

/// Whether every byte is a decimal digit.
pub open spec fn all_digits(s: Seq<u8>) -> bool {
    forall|i: int| 0 <= i < s.len() ==> is_digit(#[trigger] s[i])
}

/// The number that a run of decimal digits stands for.
pub open spec fn digits_value(s: Seq<u8>) -> nat
    decreases s.len(),
{
    if s.len() == 0 {
        0
    } else {
        (digits_value(s.drop_last()) * 10 + (s.last() - 48)) as nat
    }
}

/// The integer that a word stands for: an optional sign, then one or more
/// decimal digits and nothing else.
pub open spec fn number(s: Seq<u8>) -> Option<int> {
    if s.len() > 0 && s[0] == 45 {
        if s.len() > 1 && all_digits(s.subrange(1, s.len() as int)) {
            Some(-(digits_value(s.subrange(1, s.len() as int)) as int))
        } else {
            None
        }
    } else if s.len() > 0 && s[0] == 43 {
        if s.len() > 1 && all_digits(s.subrange(1, s.len() as int)) {
            Some(digits_value(s.subrange(1, s.len() as int)) as int)
        } else {
            None
        }
    } else if s.len() > 0 && all_digits(s) {
        Some(digits_value(s) as int)
    } else {
        None
    }
}

/// The integer that a word stands for, where it lies between `min` and `max`.
/// A type without negative values takes no minus sign, not even before zero.
pub open spec fn number_within(s: Seq<u8>, min: int, max: int) -> Option<int> {
    match number(s) {
        Some(v) => if min <= v <= max && (min < 0 || s[0] != 45) {
            Some(v)
        } else {
            None
        },
        None => None,
    }
}

/// Reads the digits `from..` of `s`; `None` where a byte is no digit, where
/// there is none, or where the number is above `max`.
fn read_digits(s: &[u8], from: usize, max: u64) -> (r: Option<u64>)
    requires
        from <= s@.len(),
    ensures
        r == (if from < s@.len() && all_digits(s@.subrange(from as int, s@.len() as int))
            && digits_value(s@.subrange(from as int, s@.len() as int)) <= max {
            Some(digits_value(s@.subrange(from as int, s@.len() as int)) as u64)
        } else {
            None
        }),
{
    let ghost t = s@.subrange(from as int, s@.len() as int);
    if from == s.len() {
        return None;
    }
    let mut value: u64 = 0;
    let mut over: bool = false;
    let mut i: usize = from;
    while i < s.len()
        invariant
            from <= i <= s@.len(),
            t == s@.subrange(from as int, s@.len() as int),
            all_digits(t.subrange(0, i - from)),
            !over ==> value == digits_value(t.subrange(0, i - from)) && value <= max,
            over ==> digits_value(t.subrange(0, i - from)) > max,
        decreases s@.len() - i,
    {
        let b: u8 = s[i];
        let ghost head = t.subrange(0, i - from);
        let ghost next = t.subrange(0, i - from + 1);
        assert(next.drop_last() =~= head);
        assert(next.last() == b);
        if b < 48 || b > 57 {
            assert(!is_digit(t[i - from]));
            return None;
        }
        assert(all_digits(next)) by {
            assert forall|j: int| 0 <= j < next.len() implies is_digit(#[trigger] next[j]) by {
                if j < head.len() {
                    assert(next[j] == head[j]);
                }
            }
        }
        if !over {
            let wide: u128 = (value as u128) * 10 + (b - 48) as u128;
            if wide > max as u128 {
                over = true;
            } else {
                value = wide as u64;
            }
        }
        i += 1;
    }
    assert(t.subrange(0, t.len() as int) =~= t);
    if over {
        None
    } else {
        Some(value)
    }
}

/// Reads an integer between `min` and `max` from a word.
pub fn read_number(s: &[u8], min: i64, max: i64) -> (r: Option<i64>)
    ensures
        match r {
            Some(v) => number_within(s@, min as int, max as int) == Some(v as int),
            None => number_within(s@, min as int, max as int) is None,
        },
{
    if s.len() == 0 {
        return None;
    }
    if s[0] == 45 {
        if min >= 0 {
            return None;
        }
        let bound: u64 = if min == i64::MIN {
            0x8000_0000_0000_0000u64
        } else {
            (-min) as u64
        };
        match read_digits(s, 1, bound) {
            Some(v) => {
                let value: i64 = if v == 0x8000_0000_0000_0000u64 {
                    i64::MIN
                } else {
                    -(v as i64)
                };
                if value <= max {
                    Some(value)
                } else {
                    None
                }
            },
            None => {
                proof {
                    let t = s@.subrange(1, s@.len() as int);
                    if s@.len() > 1 && all_digits(t) {
                        assert(digits_value(t) > -min);
                    }
                }
                None
            },
        }
    } else {
        let from: usize = if s[0] == 43 {
            1
        } else {
            0
        };
        assert(s@.subrange(0, s@.len() as int) =~= s@);
        if max < 0 {
            return None;
        }
        match read_digits(s, from, max as u64) {
            Some(v) => if v as i64 >= min {
                Some(v as i64)
            } else {
                None
            },
            None => None,
        }
    }
}

} // verus!

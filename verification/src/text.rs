//! Character sequences: white space, trimming, searching and printing numbers.
//!
//! A string is modelled by the sequence of its characters, `s@`.

use vstd::prelude::*;

verus! {

/// `String::push` appends the given character to the end of the string.
pub assume_specification[ String::push ](s: &mut String, ch: char)
    ensures
        final(s)@ == old(s)@.push(ch),
;

/// The characters with the Unicode property White_Space.
pub open spec fn is_white_space(c: char) -> bool {
    ||| '\u{9}' <= c <= '\u{d}'
    ||| c == ' '
    ||| c == '\u{85}'
    ||| c == '\u{a0}'
    ||| c == '\u{1680}'
    ||| '\u{2000}' <= c <= '\u{200a}'
    ||| c == '\u{2028}'
    ||| c == '\u{2029}'
    ||| c == '\u{202f}'
    ||| c == '\u{205f}'
    ||| c == '\u{3000}'
}

/// What a trimming function removes: white space, or one character.
pub enum Pattern {
    WhiteSpace,
    Exactly(char),
}

impl Pattern {
    /// Whether the pattern covers the character.
    pub open spec fn covers(self, c: char) -> bool {
        match self {
            Pattern::WhiteSpace => is_white_space(c),
            Pattern::Exactly(ch) => c == ch,
        }
    }

    /// Decides [`Pattern::covers`].
    pub fn has(&self, c: char) -> (yes: bool)
        ensures
            yes == self.covers(c),
    {
        match self {
            Pattern::WhiteSpace => {
                let n: u32 = c as u32;
                (0x9 <= n && n <= 0xd) || n == 0x20 || n == 0x85 || n == 0xa0 || n == 0x1680 || (
                0x2000 <= n && n <= 0x200a) || n == 0x2028 || n == 0x2029 || n == 0x202f || n
                    == 0x205f || n == 0x3000
            },
            Pattern::Exactly(ch) => c == *ch,
        }
    }
}

/// `s` without the longest prefix that the pattern covers.
pub open spec fn strip_front(s: Seq<char>, p: Pattern) -> Seq<char>
    decreases s.len(),
{
    if s.len() > 0 && p.covers(s[0]) {
        strip_front(s.skip(1), p)
    } else {
        s
    }
}

/// `s` without the longest suffix that the pattern covers.
pub open spec fn strip_back(s: Seq<char>, p: Pattern) -> Seq<char>
    decreases s.len(),
{
    if s.len() > 0 && p.covers(s.last()) {
        strip_back(s.drop_last(), p)
    } else {
        s
    }
}

/// `s` without what the pattern covers at either end.
pub open spec fn strip(s: Seq<char>, p: Pattern) -> Seq<char> {
    strip_back(strip_front(s, p), p)
}

/// `s` without leading and trailing white space.
pub open spec fn trimmed(s: Seq<char>) -> Seq<char> {
    strip(s, Pattern::WhiteSpace)
}

/// `s` neither starts nor ends with a character that the pattern covers.
pub open spec fn is_stripped(s: Seq<char>, p: Pattern) -> bool {
    s.len() > 0 ==> !p.covers(s[0]) && !p.covers(s.last())
}

/// The index of the first `c` in `s`, or the length of `s`.
pub open spec fn position(s: Seq<char>, c: char) -> int
    decreases s.len(),
{
    if s.len() == 0 || s[0] == c {
        0
    } else {
        1 + position(s.skip(1), c)
    }
}

/// The parts of `s` before and after its first `c`.
pub open spec fn split_at_first(s: Seq<char>, c: char) -> Option<(Seq<char>, Seq<char>)> {
    if s.contains(c) {
        Some((s.take(position(s, c)), s.skip(position(s, c) + 1)))
    } else {
        None
    }
}

/// The first `n` elements of `s`, or all of them where there are fewer.
pub open spec fn at_most(s: Seq<char>, n: int) -> Seq<char> {
    if s.len() <= n {
        s
    } else {
        s.take(n)
    }
}

/// `n` in decimal notation, without leading zeros.
pub open spec fn decimal(n: nat) -> Seq<char>
    decreases n,
{
    if n < 10 {
        seq![('0' as nat + n) as char]
    } else {
        decimal(n / 10).push(('0' as nat + n % 10) as char)
    }
}

/// `n` in decimal notation, with a leading minus sign where it is negative.
pub open spec fn signed_decimal(n: int) -> Seq<char> {
    if n < 0 {
        seq!['-'] + decimal((-n) as nat)
    } else {
        decimal(n as nat)
    }
}

/// The lower-case hexadecimal digit of a number below 16.
pub open spec fn hex_digit(n: nat) -> char {
    if n < 10 {
        ('0' as nat + n) as char
    } else {
        ('a' as nat + (n - 10)) as char
    }
}

/// Two lower-case hexadecimal digits for each byte, the high one first.
pub open spec fn hexadecimal(bytes: Seq<u8>) -> Seq<char>
    decreases bytes.len(),
{
    if bytes.len() == 0 {
        Seq::empty()
    } else {
        hexadecimal(bytes.drop_last()).push(hex_digit(bytes.last() as nat / 16)).push(
            hex_digit(bytes.last() as nat % 16),
        )
    }
}

/// The views of the strings of a vector.
pub open spec fn texts(v: Seq<String>) -> Seq<Seq<char>> {
    Seq::new(v.len(), |i: int| v[i]@)
}

/// The view of an optional string.
pub open spec fn text_of(v: Option<String>) -> Option<Seq<char>> {
    match v {
        Some(s) => Some(s@),
        None => None,
    }
}

/// The view of an optional string slice.
pub open spec fn str_of(v: Option<&str>) -> Option<Seq<char>> {
    match v {
        Some(s) => Some(s@),
        None => None,
    }
}

/// What [`strip_front`] leaves starts at the first character that the pattern does not cover.
pub proof fn lemma_strip_front(s: Seq<char>, p: Pattern, k: int)
    requires
        0 <= k <= s.len(),
        forall|i: int| 0 <= i < k ==> p.covers(s[i]),
        k < s.len() ==> !p.covers(s[k]),
    ensures
        strip_front(s, p) == s.skip(k),
    decreases k,
{
    if k == 0 {
        assert(s.skip(0) =~= s);
    } else {
        let t = s.skip(1);
        assert forall|i: int| 0 <= i < k - 1 implies p.covers(t[i]) by {
            assert(t[i] == s[i + 1]);
        }
        lemma_strip_front(t, p, k - 1);
        assert(t.skip(k - 1) =~= s.skip(k));
    }
}

/// What [`strip_back`] leaves ends at the last character that the pattern does not cover.
pub proof fn lemma_strip_back(s: Seq<char>, p: Pattern, k: int)
    requires
        0 <= k <= s.len(),
        forall|i: int| k <= i < s.len() ==> p.covers(s[i]),
        k > 0 ==> !p.covers(s[k - 1]),
    ensures
        strip_back(s, p) == s.take(k),
    decreases s.len() - k,
{
    if k == s.len() {
        assert(s.take(k) =~= s);
    } else {
        let t = s.drop_last();
        assert(p.covers(s.last()));
        lemma_strip_back(t, p, k);
        assert(t.take(k) =~= s.take(k));
    }
}

/// [`strip_front`] removes a covered prefix and nothing more.
pub proof fn lemma_strip_front_shape(s: Seq<char>, p: Pattern) -> (k: int)
    ensures
        0 <= k <= s.len(),
        strip_front(s, p) == s.skip(k),
        forall|i: int| 0 <= i < k ==> p.covers(s[i]),
        k < s.len() ==> !p.covers(s[k]),
    decreases s.len(),
{
    if s.len() > 0 && p.covers(s[0]) {
        let t = s.skip(1);
        let j = lemma_strip_front_shape(t, p);
        assert(t.skip(j) =~= s.skip(j + 1));
        assert forall|i: int| 0 <= i < j + 1 implies p.covers(s[i]) by {
            if i > 0 {
                assert(s[i] == t[i - 1]);
            }
        }
        j + 1
    } else {
        assert(s.skip(0) =~= s);
        0
    }
}

/// [`strip_back`] removes a covered suffix and nothing more.
pub proof fn lemma_strip_back_shape(s: Seq<char>, p: Pattern) -> (k: int)
    ensures
        0 <= k <= s.len(),
        strip_back(s, p) == s.take(k),
        forall|i: int| k <= i < s.len() ==> p.covers(s[i]),
        k > 0 ==> !p.covers(s[k - 1]),
    decreases s.len(),
{
    if s.len() > 0 && p.covers(s.last()) {
        let t = s.drop_last();
        let j = lemma_strip_back_shape(t, p);
        assert(t.take(j) =~= s.take(j));
        assert forall|i: int| j <= i < s.len() implies p.covers(s[i]) by {
            if i < t.len() {
                assert(s[i] == t[i]);
            }
        }
        j
    } else {
        assert(s.take(s.len() as int) =~= s);
        s.len() as int
    }
}

/// [`strip`] gives a contiguous part of `s` with clean ends.
pub proof fn lemma_strip_shape(s: Seq<char>, p: Pattern) -> (bounds: (int, int))
    ensures
        0 <= bounds.0 <= bounds.1 <= s.len(),
        strip(s, p) == s.subrange(bounds.0, bounds.1),
        is_stripped(strip(s, p), p),
{
    let lo = lemma_strip_front_shape(s, p);
    let t = s.skip(lo);
    let n = lemma_strip_back_shape(t, p);
    assert(t.take(n) =~= s.subrange(lo, lo + n));
    (lo, lo + n)
}

/// Stripping changes nothing exactly where the ends are clean.
pub proof fn lemma_strip_fixed(s: Seq<char>, p: Pattern)
    ensures
        strip(s, p) == s <==> is_stripped(s, p),
{
    lemma_strip_shape(s, p);
}

/// What stands between a covered prefix and a covered suffix, and has clean ends, is what
/// stripping leaves.
pub proof fn lemma_strip_is(s: Seq<char>, p: Pattern, lo: int, hi: int)
    requires
        0 <= lo <= hi <= s.len(),
        forall|i: int| 0 <= i < lo ==> p.covers(#[trigger] s[i]),
        forall|i: int| hi <= i < s.len() ==> p.covers(#[trigger] s[i]),
        lo < hi ==> !p.covers(s[lo]) && !p.covers(s[hi - 1]),
    ensures
        strip(s, p) == s.subrange(lo, hi),
{
    if lo < hi {
        lemma_strip_front(s, p, lo);
        let t = s.skip(lo);
        assert forall|i: int| hi - lo <= i < t.len() implies p.covers(t[i]) by {
            assert(t[i] == s[lo + i]);
        }
        assert(t[hi - lo - 1] == s[hi - 1]);
        lemma_strip_back(t, p, hi - lo);
        assert(t.take(hi - lo) =~= s.subrange(lo, hi));
    } else {
        lemma_strip_front(s, p, s.len() as int);
        assert(s.skip(s.len() as int) =~= s.subrange(lo, hi));
    }
}

/// Trimming drops the white space at the ends and keeps everything between the first and the last
/// other character, as it is.
pub proof fn law_trimmed(s: Seq<char>, lo: int, hi: int)
    requires
        0 <= lo <= hi <= s.len(),
        forall|i: int| 0 <= i < lo ==> is_white_space(#[trigger] s[i]),
        forall|i: int| hi <= i < s.len() ==> is_white_space(#[trigger] s[i]),
        lo < hi ==> !is_white_space(s[lo]) && !is_white_space(s[hi - 1]),
    ensures
        trimmed(s) == s.subrange(lo, hi),
{
    lemma_strip_is(s, Pattern::WhiteSpace, lo, hi);
}

/// [`position`] is the first occurrence.
pub proof fn lemma_position(s: Seq<char>, c: char)
    ensures
        0 <= position(s, c) <= s.len(),
        forall|i: int| 0 <= i < position(s, c) ==> s[i] != c,
        position(s, c) < s.len() ==> s[position(s, c)] == c,
        s.contains(c) <==> position(s, c) < s.len(),
    decreases s.len(),
{
    if s.len() == 0 || s[0] == c {
        if s.len() > 0 {
            assert(s.contains(c));
        }
    } else {
        let t = s.skip(1);
        lemma_position(t, c);
        assert forall|i: int| 0 <= i < position(s, c) implies s[i] != c by {
            if i > 0 {
                assert(s[i] == t[i - 1]);
            }
        }
        if position(s, c) < s.len() {
            assert(s[position(s, c)] == c);
        }
    }
}

/// An index that holds `c` with no `c` before it is the [`position`] of `c`.
pub proof fn lemma_position_is(s: Seq<char>, c: char, k: int)
    requires
        0 <= k <= s.len(),
        forall|i: int| 0 <= i < k ==> s[i] != c,
        k < s.len() ==> s[k] == c,
    ensures
        position(s, c) == k,
{
    lemma_position(s, c);
    let m = position(s, c);
    if m < k {
        assert(s[m] == c);
    }
    if k < m {
        assert(s[k] == c);
    }
}

/// The characters of a string, one element each.
pub fn characters(s: &str) -> (out: Vec<char>)
    ensures
        out@ == s@,
{
    let mut out: Vec<char> = Vec::new();
    for c in it: s.chars()
        invariant
            out@ == s@.take(it.index() as int),
            it.seq() == s@,
    {
        out.push(c);
    }
    proof {
        assert(s@.take(s@.len() as int) =~= s@);
    }
    out
}

/// Whether two strings hold the same characters.
pub fn same_text(a: &str, b: &str) -> (same: bool)
    ensures
        same == (a@ == b@),
{
    a.to_owned() == b.to_owned()
}

/// `s` without the longest prefix that the pattern covers.
pub fn trim_start<'a>(s: &'a str, p: &Pattern) -> (out: &'a str)
    ensures
        out@ == strip_front(s@, *p),
{
    let v = characters(s);
    let mut lo: usize = 0;
    while lo < v.len() && p.has(v[lo])
        invariant
            lo <= v.len(),
            v@ == s@,
            forall|i: int| 0 <= i < lo ==> p.covers(s@[i]),
        ensures
            lo < v.len() ==> !p.covers(s@[lo as int]),
        decreases v.len() - lo,
    {
        lo = lo + 1;
    }
    proof {
        lemma_strip_front(s@, *p, lo as int);
        assert(s@.subrange(lo as int, v@.len() as int) =~= s@.skip(lo as int));
    }
    s.substring_char(lo, v.len())
}

/// `s` without the longest suffix that the pattern covers.
pub fn trim_end<'a>(s: &'a str, p: &Pattern) -> (out: &'a str)
    ensures
        out@ == strip_back(s@, *p),
{
    let v = characters(s);
    let mut hi: usize = v.len();
    while hi > 0 && p.has(v[hi - 1])
        invariant
            hi <= v.len(),
            v@ == s@,
            forall|i: int| hi <= i < s@.len() ==> p.covers(s@[i]),
        ensures
            hi > 0 ==> !p.covers(s@[hi - 1]),
        decreases hi,
    {
        hi = hi - 1;
    }
    proof {
        lemma_strip_back(s@, *p, hi as int);
        assert(s@.subrange(0, hi as int) =~= s@.take(hi as int));
    }
    s.substring_char(0, hi)
}

/// `s` without what the pattern covers at either end.
pub fn trim_matches<'a>(s: &'a str, p: &Pattern) -> (out: &'a str)
    ensures
        out@ == strip(s@, *p),
{
    trim_end(trim_start(s, p), p)
}

/// `s` without leading and trailing white space.
pub fn trim<'a>(s: &'a str) -> (out: &'a str)
    ensures
        out@ == trimmed(s@),
{
    trim_matches(s, &Pattern::WhiteSpace)
}

/// The parts of `s` before and after its first `c`, where there is one.
pub fn split_once<'a>(s: &'a str, c: char) -> (parts: Option<(&'a str, &'a str)>)
    ensures
        match parts {
            Some(p) => split_at_first(s@, c) == Some((p.0@, p.1@)),
            None => split_at_first(s@, c) is None,
        },
{
    let v = characters(s);
    let mut k: usize = 0;
    while k < v.len() && v[k] != c
        invariant
            k <= v.len(),
            v@ == s@,
            forall|i: int| 0 <= i < k ==> s@[i] != c,
        ensures
            k < v.len() ==> s@[k as int] == c,
        decreases v.len() - k,
    {
        k = k + 1;
    }
    proof {
        lemma_position_is(s@, c, k as int);
        lemma_position(s@, c);
    }
    if k < v.len() {
        proof {
            assert(s@.subrange(0, k as int) =~= s@.take(k as int));
            assert(s@.subrange(k + 1, v@.len() as int) =~= s@.skip(k + 1));
        }
        Some((s.substring_char(0, k), s.substring_char(k + 1, v.len())))
    } else {
        None
    }
}

/// Prints a number in decimal notation.
pub fn print_decimal(n: u64) -> (out: String)
    ensures
        out@ == decimal(n as nat),
    decreases n,
{
    let mut out = if n < 10 {
        String::new()
    } else {
        print_decimal(n / 10)
    };
    out.push((48u8 + (n % 10) as u8) as char);
    out
}

/// Prints a signed number in decimal notation.
pub fn print_signed(n: i32) -> (out: String)
    ensures
        out@ == signed_decimal(n as int),
{
    if n < 0 {
        let mut out = String::new();
        out.push('-');
        let magnitude: u64 = (-(n as i64)) as u64;
        out.append(print_decimal(magnitude).as_str());
        out
    } else {
        print_decimal(n as u64)
    }
}

/// Prints a number below 16 as a lower-case hexadecimal digit.
fn print_hex_digit(n: u8) -> (c: char)
    requires
        n < 16,
    ensures
        c == hex_digit(n as nat),
{
    if n < 10 {
        (48u8 + n) as char
    } else {
        (97u8 + (n - 10)) as char
    }
}

/// Prints bytes as lower-case hexadecimal digits, two for each byte.
pub fn print_hexadecimal(bytes: &[u8]) -> (out: String)
    ensures
        out@ == hexadecimal(bytes@),
{
    let mut out = String::new();
    let mut i: usize = 0;
    while i < bytes.len()
        invariant
            i <= bytes.len(),
            out@ == hexadecimal(bytes@.take(i as int)),
        decreases bytes.len() - i,
    {
        let b: u8 = bytes[i];
        out.push(print_hex_digit(b / 16));
        out.push(print_hex_digit(b % 16));
        proof {
            let next = bytes@.take(i + 1);
            assert(next.drop_last() =~= bytes@.take(i as int));
            assert(next.last() == b);
        }
        i = i + 1;
    }
    proof {
        assert(bytes@.take(i as int) =~= bytes@);
    }
    out
}

/// The number that a hexadecimal digit stands for.
pub open spec fn digit_value(c: char) -> int {
    if '0' <= c <= '9' {
        c as int - '0' as int
    } else {
        c as int - 'a' as int + 10
    }
}

/// The number that decimal digits stand for, the highest digit first.
pub open spec fn decimal_value(s: Seq<char>) -> int
    decreases s.len(),
{
    if s.len() == 0 {
        0
    } else {
        10 * decimal_value(s.drop_last()) + digit_value(s.last())
    }
}

/// A printed number reads back as the number; it consists of decimal digits, with no zero in front
/// but for the number zero.
pub proof fn law_decimal_reads_back(n: nat)
    ensures
        decimal_value(decimal(n)) == n,
        decimal(n).len() > 0,
        decimal(n).len() > 1 ==> decimal(n)[0] != '0',
        forall|i: int| 0 <= i < decimal(n).len() ==> '0' <= #[trigger] decimal(n)[i] <= '9',
    decreases n,
{
    if n < 10 {
        let s = decimal(n);
        assert(s.drop_last() =~= Seq::<char>::empty());
        assert(decimal_value(s.drop_last()) == 0);
    } else {
        let front = decimal(n / 10);
        law_decimal_reads_back(n / 10);
        assert(decimal(n).drop_last() =~= front);
        assert(decimal(n)[0] == front[0]);
        assert(front.len() == 1 ==> front[0] != '0') by {
            if front.len() == 1 {
                assert(front.drop_last() =~= Seq::<char>::empty());
                assert(decimal_value(front.drop_last()) == 0);
            }
        }
    }
}

/// A printed signed number reads back: a negative one has a minus sign in front of its magnitude.
pub proof fn law_signed_decimal_reads_back(n: int)
    ensures
        n >= 0 ==> decimal_value(signed_decimal(n)) == n && signed_decimal(n)[0] != '-',
        n < 0 ==> signed_decimal(n)[0] == '-' && decimal_value(signed_decimal(n).skip(1)) == -n,
{
    if n < 0 {
        law_decimal_reads_back((-n) as nat);
        assert(signed_decimal(n).skip(1) =~= decimal((-n) as nat));
    } else {
        law_decimal_reads_back(n as nat);
    }
}

/// Every byte reads back from its two lower-case hexadecimal digits.
pub proof fn law_hexadecimal_reads_back(bytes: Seq<u8>, i: int)
    requires
        0 <= i < bytes.len(),
    ensures
        hexadecimal(bytes).len() == 2 * bytes.len(),
        ({
            let high = hexadecimal(bytes)[2 * i];
            let low = hexadecimal(bytes)[2 * i + 1];
            &&& '0' <= high <= '9' || 'a' <= high <= 'f'
            &&& '0' <= low <= '9' || 'a' <= low <= 'f'
            &&& 16 * digit_value(high) + digit_value(low) == bytes[i]
        }),
    decreases bytes.len(),
{
    let front = bytes.drop_last();
    if front.len() > 0 {
        law_hexadecimal_reads_back(front, 0);
    } else {
        assert(hexadecimal(front) =~= Seq::<char>::empty());
    }
    if i < front.len() {
        law_hexadecimal_reads_back(front, i);
        assert(hexadecimal(bytes)[2 * i] == hexadecimal(front)[2 * i]);
        assert(hexadecimal(bytes)[2 * i + 1] == hexadecimal(front)[2 * i + 1]);
    } else {
        assert(bytes.last() as nat / 16 < 16);
    }
}

/// The parts of `s` between the occurrences of `c`: one more than there are occurrences.
pub open spec fn pieces(s: Seq<char>, c: char) -> Seq<Seq<char>>
    decreases s.len(),
{
    proof {
        lemma_position(s, c);
    }
    if position(s, c) < s.len() {
        seq![s.take(position(s, c))] + pieces(s.skip(position(s, c) + 1), c)
    } else {
        seq![s]
    }
}

/// A text without `c` is one piece.
pub proof fn lemma_one_piece(s: Seq<char>, c: char)
    requires
        !s.contains(c),
    ensures
        pieces(s, c) == seq![s],
{
    lemma_position(s, c);
}

/// What stands before the first `c` is the first piece.
pub proof fn lemma_first_piece(front: Seq<char>, c: char, rest: Seq<char>)
    requires
        !front.contains(c),
    ensures
        pieces(front + seq![c] + rest, c) == seq![front] + pieces(rest, c),
{
    let s = front + seq![c] + rest;
    let n = front.len() as int;
    assert(s[n] == c);
    assert forall|i: int| 0 <= i < n implies s[i] != c by {
        assert(s[i] == front[i]);
        assert(front.contains(front[i]));
    }
    lemma_position_is(s, c, n);
    assert(s.take(n) =~= front);
    assert(s.skip(n + 1) =~= rest);
}

/// The pieces of two texts put together are those of the first and those of the second, where the
/// last of the first and the first of the second have become one.
pub proof fn lemma_pieces_of_both(a: Seq<char>, b: Seq<char>, c: char)
    ensures
        pieces(a, c).len() > 0,
        pieces(b, c).len() > 0,
        pieces(a + b, c) == pieces(a, c).drop_last() + seq![pieces(a, c).last() + pieces(b, c)[0]]
            + pieces(b, c).skip(1),
    decreases a.len(),
{
    lemma_position(a, c);
    lemma_position(b, c);
    let p = position(a, c);
    if p < a.len() {
        let front = a.take(p);
        let rest = a.skip(p + 1);
        lemma_pieces_of_both(rest, b, c);
        assert(!front.contains(c));
        assert(a + b =~= front + seq![c] + (rest + b));
        lemma_first_piece(front, c, rest + b);
        assert(pieces(a, c).drop_last() =~= seq![front] + pieces(rest, c).drop_last());
        assert(pieces(a, c).last() == pieces(rest, c).last());
        assert(pieces(a + b, c) =~= pieces(a, c).drop_last() + seq![
            pieces(a, c).last() + pieces(b, c)[0],
        ] + pieces(b, c).skip(1));
    } else {
        let q = position(b, c);
        assert(pieces(a, c).drop_last() =~= Seq::<Seq<char>>::empty());
        if q < b.len() {
            let front = b.take(q);
            let rest = b.skip(q + 1);
            assert(!(a + front).contains(c)) by {
                assert forall|i: int| 0 <= i < (a + front).len() implies (a + front)[i] != c by {
                    if i < a.len() {
                        assert(a[i] == (a + front)[i]);
                    } else {
                        assert(front[i - a.len()] == (a + front)[i]);
                    }
                }
            }
            assert(a + b =~= (a + front) + seq![c] + rest);
            lemma_first_piece(a + front, c, rest);
            assert(pieces(b, c).skip(1) =~= pieces(rest, c));
        } else {
            assert(!(a + b).contains(c)) by {
                assert forall|i: int| 0 <= i < (a + b).len() implies (a + b)[i] != c by {
                    if i < a.len() {
                        assert(a[i] == (a + b)[i]);
                    } else {
                        assert(b[i - a.len()] == (a + b)[i]);
                    }
                }
            }
            lemma_one_piece(a + b, c);
            assert(pieces(b, c).skip(1) =~= Seq::<Seq<char>>::empty());
        }
        assert(pieces(a + b, c) =~= pieces(a, c).drop_last() + seq![
            pieces(a, c).last() + pieces(b, c)[0],
        ] + pieces(b, c).skip(1));
    }
}

/// The texts of strings are the strings, one by one, character for character.
pub proof fn law_texts(v: Seq<String>, s: String, r: &str)
    ensures
        texts(v).len() == v.len(),
        forall|i: int| 0 <= i < v.len() ==> texts(v)[i] == (#[trigger] v[i])@,
        text_of(Some(s)) == Some(s@),
        text_of(None) is None,
        str_of(Some(r)) == Some(r@),
        str_of(None) is None,
{
}

} // verus!

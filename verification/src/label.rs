//! Domain labels (RFC 1035).

use vstd::prelude::*;
use vstd::utf8::{encode_utf8, is_ascii_chars, is_ascii_chars_encode_utf8};
use crate::text::{
    at_most, characters, lemma_strip_back, lemma_strip_back_shape, lemma_strip_fixed,
    lemma_strip_front_shape, lemma_strip_is, lemma_strip_shape, strip, strip_back, strip_front,
    trim_end, trim_matches, Pattern,
};

verus! {

/// The longest domain label, in characters.
pub const MAX_LABEL_LEN: usize = 63;

/// The label that stands in where sanitizing leaves nothing.
pub const FALLBACK_LABEL: &'static str = "label";

/// ASCII letters and digits.
pub open spec fn is_alphanumeric(c: char) -> bool {
    ||| 'a' <= c <= 'z'
    ||| 'A' <= c <= 'Z'
    ||| '0' <= c <= '9'
}

/// Every character but an ASCII letter or digit replaced by a hyphen.
pub open spec fn hyphenated(s: Seq<char>) -> Seq<char> {
    Seq::new(
        s.len(),
        |i: int|
            if is_alphanumeric(s[i]) {
                s[i]
            } else {
                '-'
            },
    )
}

/// Every run of hyphens shortened to a single hyphen.
pub open spec fn collapsed(s: Seq<char>) -> Seq<char>
    decreases s.len(),
{
    if s.len() == 0 {
        s
    } else if s.len() > 1 && s.last() == '-' && s[s.len() - 2] == '-' {
        collapsed(s.drop_last())
    } else {
        collapsed(s.drop_last()).push(s.last())
    }
}

/// The domain label made of `s`: other characters become hyphens, hyphens are collapsed and
/// stripped at both ends, the rest is cut to the longest label and loses a hyphen that the cut
/// left at its end; where nothing remains the fallback stands in.
pub open spec fn domain_label(s: Seq<char>) -> Seq<char> {
    let inner = strip(collapsed(hyphenated(s)), Pattern::Exactly('-'));
    let cut = strip_back(at_most(inner, MAX_LABEL_LEN as int), Pattern::Exactly('-'));
    if cut.len() == 0 {
        FALLBACK_LABEL@
    } else {
        cut
    }
}

/// A label of one to 63 ASCII letters, digits and hyphens that starts and ends with a letter or
/// digit and has no two hyphens side by side.
pub open spec fn is_domain_label(s: Seq<char>) -> bool {
    &&& 1 <= s.len() <= MAX_LABEL_LEN
    &&& forall|i: int| 0 <= i < s.len() ==> is_alphanumeric(#[trigger] s[i]) || s[i] == '-'
    &&& is_alphanumeric(s[0])
    &&& is_alphanumeric(s.last())
    &&& no_double_hyphen(s)
}

/// No two hyphens side by side.
pub open spec fn no_double_hyphen(s: Seq<char>) -> bool {
    forall|i: int, j: int|
        #![trigger s[i], s[j]]
        0 <= i < s.len() && j == i + 1 && j < s.len() ==> !(s[i] == '-' && s[j] == '-')
}

/// Collapsing keeps the character set, removes double hyphens and keeps the last character.
proof fn lemma_collapsed(s: Seq<char>)
    ensures
        no_double_hyphen(collapsed(s)),
        collapsed(s).len() <= s.len(),
        s.len() > 0 ==> collapsed(s).len() > 0 && collapsed(s).last() == s.last(),
        forall|i: int| 0 <= i < collapsed(s).len() ==> s.contains(#[trigger] collapsed(s)[i]),
    decreases s.len(),
{
    if s.len() > 0 {
        let t = s.drop_last();
        lemma_collapsed(t);
        assert forall|i: int|
            0 <= i < collapsed(s).len() implies s.contains(#[trigger] collapsed(s)[i]) by {
            if i < collapsed(t).len() {
                assert(t.contains(collapsed(t)[i]));
                let k = choose|k: int| 0 <= k < t.len() && t[k] == collapsed(t)[i];
                assert(s[k] == collapsed(s)[i]);
            } else {
                assert(s[s.len() - 1] == collapsed(s)[i]);
            }
        }
    }
}

/// Collapsing changes nothing where there is no double hyphen.
proof fn lemma_collapsed_fixed(s: Seq<char>)
    requires
        no_double_hyphen(s),
    ensures
        collapsed(s) == s,
    decreases s.len(),
{
    if s.len() > 0 {
        lemma_collapsed_fixed(s.drop_last());
        assert(s.drop_last().push(s.last()) =~= s);
    }
}

/// Every result of sanitizing is a domain label; it is ASCII, so it has at most 63 bytes too.
pub proof fn law_result_is_domain_label(s: Seq<char>)
    ensures
        is_domain_label(domain_label(s)),
        is_ascii_chars(domain_label(s)),
        encode_utf8(domain_label(s)).len() <= MAX_LABEL_LEN,
{
    let p = Pattern::Exactly('-');
    let h = hyphenated(s);
    let c = collapsed(h);
    lemma_collapsed(h);
    let b = lemma_strip_shape(c, p);
    let inner = strip(c, p);
    let few = at_most(inner, MAX_LABEL_LEN as int);
    let k = lemma_strip_back_shape(few, p);
    let cut = strip_back(few, p);
    reveal_strlit("label");
    if cut.len() > 0 {
        assert forall|i: int|
            0 <= i < cut.len() implies is_alphanumeric(#[trigger] cut[i]) || cut[i] == '-' by {
            assert(cut[i] == c[b.0 + i]);
            assert(h.contains(c[b.0 + i]));
        }
        assert(cut[0] == inner[0]);
        assert forall|i: int, j: int|
            #![trigger cut[i], cut[j]]
            0 <= i < cut.len() && j == i + 1 && j < cut.len()
            implies !(cut[i] == '-' && cut[j] == '-') by {
            assert(cut[i] == c[b.0 + i]);
            assert(cut[j] == c[b.0 + j]);
        }
    }
    let label = domain_label(s);
    assert forall|i: int| 0 <= i < label.len() implies '\0' <= #[trigger] label[i] <= '\u{7f}' by {
        assert(is_alphanumeric(label[i]) || label[i] == '-');
    }
    is_ascii_chars_encode_utf8(label);
}

/// A string that is a domain label is left as it is.
pub proof fn law_domain_label_unchanged(s: Seq<char>)
    requires
        is_domain_label(s),
    ensures
        domain_label(s) == s,
{
    let p = Pattern::Exactly('-');
    assert(hyphenated(s) =~= s);
    lemma_collapsed_fixed(s);
    lemma_strip_fixed(s, p);
    assert(strip_back(s, p) == s);
}

/// Sanitizing twice is sanitizing once.
pub proof fn law_sanitizing_idempotent(s: Seq<char>)
    ensures
        domain_label(domain_label(s)) == domain_label(s),
{
    law_result_is_domain_label(s);
    law_domain_label_unchanged(domain_label(s));
}

/// Decides [`is_alphanumeric`].
fn alphanumeric(c: char) -> (yes: bool)
    ensures
        yes == is_alphanumeric(c),
{
    let n: u32 = c as u32;
    (97 <= n && n <= 122) || (65 <= n && n <= 90) || (48 <= n && n <= 57)
}

/// Makes a domain label (RFC 1035) of any string.
pub fn sanitize_as_domain_label(s: &str) -> (out: String)
    ensures
        out@ == domain_label(s@),
{
    let v = characters(s);
    let hyphen = Pattern::Exactly('-');
    let mut joined = String::new();
    let mut after_hyphen = false;
    let mut i: usize = 0;
    while i < v.len()
        invariant
            v@ == s@,
            i <= v.len(),
            joined@ == collapsed(hyphenated(s@).take(i as int)),
            after_hyphen == (i > 0 && hyphenated(s@)[i - 1] == '-'),
        decreases v.len() - i,
    {
        let c = v[i];
        let keep = alphanumeric(c);
        proof {
            let next = hyphenated(s@).take(i + 1);
            assert(next.drop_last() =~= hyphenated(s@).take(i as int));
            assert(next.last() == hyphenated(s@)[i as int]);
        }
        if keep {
            joined.push(c);
        } else if !after_hyphen {
            joined.push('-');
        }
        after_hyphen = !keep;
        i = i + 1;
    }
    proof {
        assert(hyphenated(s@).take(i as int) =~= hyphenated(s@));
    }
    let inner = trim_matches(joined.as_str(), &hyphen);
    let length = inner.unicode_len();
    let few = if length <= MAX_LABEL_LEN {
        inner
    } else {
        inner.substring_char(0, MAX_LABEL_LEN)
    };
    proof {
        let most = MAX_LABEL_LEN as int;
        assert(inner@.len() > most ==> inner@.subrange(0, most) =~= inner@.take(most));
    }
    let cut = trim_end(few, &hyphen);
    if cut.is_empty() {
        FALLBACK_LABEL.to_owned()
    } else {
        cut.to_owned()
    }
}

/// The characters that a label keeps are the ASCII letters, of either case, and digits.
pub proof fn law_kept_characters(c: char)
    ensures
        is_alphanumeric(c) <==> 'a' <= c <= 'z' || 'A' <= c <= 'Z' || '0' <= c <= '9',
{
}

/// Any other character counts as a hyphen.
pub proof fn law_other_character_is_hyphen(s: Seq<char>, i: int)
    requires
        0 <= i < s.len(),
        !is_alphanumeric(s[i]),
    ensures
        domain_label(s) == domain_label(s.update(i, '-')),
{
    assert(hyphenated(s.update(i, '-')) =~= hyphenated(s));
}

/// Two hyphens side by side count as one, wherever they stand.
pub proof fn law_hyphens_count_once(a: Seq<char>, b: Seq<char>)
    ensures
        domain_label(a + seq!['-', '-'] + b) == domain_label(a + seq!['-'] + b),
{
    let h = hyphenated(a);
    let one = h + seq!['-'];
    let two = h + seq!['-', '-'];
    assert(two.drop_last() =~= one);
    assert(collapsed(two) == collapsed(one));
    lemma_collapsed_behind(two, one, hyphenated(b));
    assert(hyphenated(a + seq!['-', '-'] + b) =~= two + hyphenated(b));
    assert(hyphenated(a + seq!['-'] + b) =~= one + hyphenated(b));
}

/// What stands behind two texts that collapse to the same, and end alike, does not tell them apart.
proof fn lemma_collapsed_behind(x: Seq<char>, y: Seq<char>, b: Seq<char>)
    requires
        x.len() > 0,
        y.len() > 0,
        x.last() == y.last(),
        collapsed(x) == collapsed(y),
    ensures
        collapsed(x + b) == collapsed(y + b),
    decreases b.len(),
{
    if b.len() == 0 {
        assert(x + b =~= x);
        assert(y + b =~= y);
    } else {
        lemma_collapsed_behind(x, y, b.drop_last());
        assert((x + b).drop_last() =~= x + b.drop_last());
        assert((y + b).drop_last() =~= y + b.drop_last());
        assert((x + b)[(x + b).len() - 2] == (y + b)[(y + b).len() - 2]);
    }
}

/// Hyphens at the ends do not count.
pub proof fn law_outer_hyphens_do_not_count(s: Seq<char>)
    ensures
        domain_label(seq!['-'] + s) == domain_label(s),
        domain_label(s.push('-')) == domain_label(s),
{
    let p = Pattern::Exactly('-');
    let h = hyphenated(s);
    let c = collapsed(h);
    lemma_collapsed_before(h);
    assert(hyphenated(seq!['-'] + s) =~= seq!['-'] + h);
    if collapsed(seq!['-'] + h) != c {
        assert((seq!['-'] + c).skip(1) =~= c);
        assert(strip_front(seq!['-'] + c, p) == strip_front(c, p));
    }
    assert(hyphenated(s.push('-')) =~= h.push('-'));
    assert(h.push('-').drop_last() =~= h);
    if collapsed(h.push('-')) != c {
        lemma_strip_behind(c);
    }
}

/// A hyphen in front of a text joins the hyphens there, or stands alone.
proof fn lemma_collapsed_before(h: Seq<char>)
    ensures
        collapsed(seq!['-'] + h) == (if h.len() > 0 && h[0] == '-' {
            collapsed(h)
        } else {
            seq!['-'] + collapsed(h)
        }),
    decreases h.len(),
{
    let s = seq!['-'] + h;
    if h.len() == 0 {
        assert(s =~= seq!['-']);
        assert(h =~= Seq::<char>::empty());
        assert(s.drop_last() =~= h);
        assert(collapsed(s) == collapsed(h).push('-'));
        assert(collapsed(s) =~= seq!['-'] + collapsed(h));
    } else {
        let t = h.drop_last();
        lemma_collapsed_before(t);
        assert(s.drop_last() =~= seq!['-'] + t);
        if t.len() > 0 {
            assert(s[s.len() - 2] == h[h.len() - 2]);
            assert((seq!['-'] + collapsed(t)).push(h.last()) =~= seq!['-'] + collapsed(t).push(
                h.last(),
            ));
        } else {
            assert(seq!['-'] + t =~= seq!['-']);
            assert(t =~= Seq::<char>::empty());
            assert(collapsed(seq!['-'] + t) =~= seq!['-']);
            assert(collapsed(h) =~= h);
            assert(collapsed(s) =~= if h[0] == '-' {
                h
            } else {
                seq!['-'] + h
            });
        }
    }
}

/// A hyphen behind a text is stripped with the others.
proof fn lemma_strip_behind(c: Seq<char>)
    ensures
        strip(c.push('-'), Pattern::Exactly('-')) == strip(c, Pattern::Exactly('-')),
{
    let p = Pattern::Exactly('-');
    let s = c.push('-');
    let lo = lemma_strip_front_shape(c, p);
    let rest = c.skip(lo);
    let n = lemma_strip_back_shape(rest, p);
    assert(lo < c.len() ==> rest[0] == c[lo]);
    assert forall|i: int| lo + n <= i < s.len() implies p.covers(#[trigger] s[i]) by {
        if i < c.len() {
            assert(s[i] == rest[i - lo]);
        }
    }
    assert forall|i: int| 0 <= i < lo implies p.covers(#[trigger] s[i]) by {
        assert(s[i] == c[i]);
    }
    if n > 0 {
        assert(s[lo + n - 1] == rest[n - 1]);
    }
    lemma_strip_is(s, p, lo, lo + n);
    assert(rest.take(n) =~= s.subrange(lo, lo + n));
}

/// A text of letters, digits and single hyphens between them is its own label up to the longest
/// label; of a longer one the label is the start, without a hyphen that the cut leaves at its end.
pub proof fn law_clean_text_is_only_cut(s: Seq<char>)
    requires
        s.len() > 0,
        forall|i: int| 0 <= i < s.len() ==> is_alphanumeric(#[trigger] s[i]) || s[i] == '-',
        is_alphanumeric(s[0]),
        is_alphanumeric(s.last()),
        no_double_hyphen(s),
    ensures
        s.len() <= 63 ==> domain_label(s) == s,
        s.len() > 63 && s[62] != '-' ==> domain_label(s) == s.take(63),
        s.len() > 63 && s[62] == '-' ==> domain_label(s) == s.take(62),
{
    let p = Pattern::Exactly('-');
    assert(hyphenated(s) =~= s);
    lemma_collapsed_fixed(s);
    lemma_strip_fixed(s, p);
    if s.len() <= 63 {
        assert(strip_back(s, p) == s);
    } else {
        let few = s.take(63);
        if s[62] != '-' {
            lemma_strip_back(few, p, 63);
            assert(few.take(63) =~= few);
        } else {
            assert(s[61] != '-');
            lemma_strip_back(few, p, 62);
            assert(few.take(62) =~= s.take(62));
        }
    }
}

/// Where a text has no letter and no digit, the label is the fallback.
pub proof fn law_nothing_to_keep(s: Seq<char>)
    requires
        forall|i: int| 0 <= i < s.len() ==> !is_alphanumeric(#[trigger] s[i]),
    ensures
        domain_label(s) == "label"@,
{
    let p = Pattern::Exactly('-');
    let h = hyphenated(s);
    let c = collapsed(h);
    lemma_collapsed(h);
    assert forall|i: int| 0 <= i < c.len() implies p.covers(#[trigger] c[i]) by {
        assert(h.contains(c[i]));
    }
    lemma_strip_is(c, p, 0, 0);
}

} // verus!

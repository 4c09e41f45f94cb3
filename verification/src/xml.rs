//! XML text.

use vstd::prelude::*;
use vstd::utf8::{encode_utf8, is_ascii_chars, is_ascii_chars_encode_utf8};

verus! {

/// How a character is written in XML text: the five special characters as entities, every other
/// one as it is.
pub open spec fn xml_form(c: char) -> Seq<char> {
    if c == '&' {
        "&amp;"@
    } else if c == '<' {
        "&lt;"@
    } else if c == '>' {
        "&gt;"@
    } else if c == '"' {
        "&quot;"@
    } else if c == '\'' {
        "&apos;"@
    } else {
        seq![c]
    }
}

/// The XML forms of the characters of `s`, one after another.
pub open spec fn xml_escaped(s: Seq<char>) -> Seq<char>
    decreases s.len(),
{
    if s.len() == 0 {
        Seq::empty()
    } else {
        xml_escaped(s.drop_last()) + xml_form(s.last())
    }
}

/// Escapes a string for use as XML text or in an attribute.
pub fn xml_escape(s: &str) -> (out: String)
    ensures
        out@ == xml_escaped(s@),
{
    let mut out = String::new();
    for c in it: s.chars()
        invariant
            out@ == xml_escaped(s@.take(it.index() as int)),
            it.seq() == s@,
    {
        proof {
            let next = s@.take(it.index() + 1);
            assert(next.drop_last() =~= s@.take(it.index() as int));
            assert(next.last() == c);
        }
        if c == '&' {
            out.append("&amp;");
        } else if c == '<' {
            out.append("&lt;");
        } else if c == '>' {
            out.append("&gt;");
        } else if c == '"' {
            out.append("&quot;");
        } else if c == '\'' {
            out.append("&apos;");
        } else {
            let ghost before = out@;
            out.push(c);
            proof {
                assert(out@ =~= before + seq![c]);
            }
        }
    }
    proof {
        assert(s@.take(s@.len() as int) =~= s@);
    }
    out
}

/// Whether the character is one of the five that XML text escapes.
pub open spec fn is_xml_special(c: char) -> bool {
    c == '&' || c == '<' || c == '>' || c == '"' || c == '\''
}

/// The special character that an entity at the start of `s` stands for.
pub open spec fn leading_entity(s: Seq<char>) -> Option<char> {
    if "&amp;"@.is_prefix_of(s) {
        Some('&')
    } else if "&lt;"@.is_prefix_of(s) {
        Some('<')
    } else if "&gt;"@.is_prefix_of(s) {
        Some('>')
    } else if "&quot;"@.is_prefix_of(s) {
        Some('"')
    } else if "&apos;"@.is_prefix_of(s) {
        Some('\'')
    } else {
        None
    }
}

/// `s` with its entities replaced by the characters that they stand for, `None` where an
/// ampersand starts no known entity.
pub open spec fn xml_unescaped(s: Seq<char>) -> Option<Seq<char>>
    decreases s.len(),
{
    if s.len() == 0 {
        Some(s)
    } else if s[0] != '&' {
        match xml_unescaped(s.skip(1)) {
            Some(rest) => Some(seq![s[0]] + rest),
            None => None,
        }
    } else {
        match leading_entity(s) {
            Some(c) => if 0 < xml_form(c).len() <= s.len() {
                match xml_unescaped(s.skip(xml_form(c).len() as int)) {
                    Some(rest) => Some(seq![c] + rest),
                    None => None,
                }
            } else {
                None
            },
            None => None,
        }
    }
}

/// How many elements of `s` equal `c`.
pub open spec fn count_of(s: Seq<char>, c: char) -> nat
    decreases s.len(),
{
    if s.len() == 0 {
        0
    } else {
        (if s[0] == c {
            1nat
        } else {
            0nat
        }) + count_of(s.skip(1), c)
    }
}

/// At how many indices of `s` the word starts.
pub open spec fn occurrences(s: Seq<char>, word: Seq<char>) -> nat
    decreases s.len(),
{
    if s.len() == 0 {
        0
    } else {
        (if word.is_prefix_of(s) {
            1nat
        } else {
            0nat
        }) + occurrences(s.skip(1), word)
    }
}

/// What the XML form of a character looks like.
proof fn lemma_xml_form(c: char)
    ensures
        xml_form(c).len() >= 1,
        is_xml_special(c) <==> xml_form(c)[0] == '&',
        !is_xml_special(c) ==> xml_form(c) == seq![c],
        forall|i: int| 0 < i < xml_form(c).len() ==> !is_xml_special(#[trigger] xml_form(c)[i]),
{
    reveal_strlit("&amp;");
    reveal_strlit("&lt;");
    reveal_strlit("&gt;");
    reveal_strlit("&quot;");
    reveal_strlit("&apos;");
}

/// The XML form of a special character is the entity that stands for it, whatever follows.
proof fn lemma_leading_entity(c: char, rest: Seq<char>)
    requires
        is_xml_special(c),
    ensures
        leading_entity(xml_form(c) + rest) == Some(c),
        forall|d: char|
            is_xml_special(d) ==> (#[trigger] xml_form(d).is_prefix_of(xml_form(c) + rest) <==> d
                == c),
{
    reveal_strlit("&amp;");
    reveal_strlit("&lt;");
    reveal_strlit("&gt;");
    reveal_strlit("&quot;");
    reveal_strlit("&apos;");
    let s = xml_form(c) + rest;
    assert(xml_form(c).is_prefix_of(s));
    assert forall|d: char| is_xml_special(d) && d != c implies !(
    #[trigger] xml_form(d).is_prefix_of(s)) by {
        if xml_form(d).is_prefix_of(s) {
            assert(xml_form(d)[1] == s[1]);
            assert(xml_form(d)[2] == s[2]);
            assert(s[1] == xml_form(c)[1]);
            assert(s[2] == xml_form(c)[2]);
        }
    }
    assert(xml_form('&').is_prefix_of(s) <==> c == '&');
    assert(xml_form('<').is_prefix_of(s) <==> c == '<');
    assert(xml_form('>').is_prefix_of(s) <==> c == '>');
    assert(xml_form('"').is_prefix_of(s) <==> c == '"');
    assert(xml_form('\'').is_prefix_of(s) <==> c == '\'');
}

/// Escaping distributes over concatenation.
pub proof fn law_escape_distributes(a: Seq<char>, b: Seq<char>)
    ensures
        xml_escaped(a + b) == xml_escaped(a) + xml_escaped(b),
    decreases b.len(),
{
    if b.len() == 0 {
        assert(a + b =~= a);
        assert(xml_escaped(a) + xml_escaped(b) =~= xml_escaped(a));
    } else {
        law_escape_distributes(a, b.drop_last());
        assert((a + b).drop_last() =~= a + b.drop_last());
        assert(xml_escaped(a + b) =~= xml_escaped(a) + xml_escaped(b));
    }
}

/// The escaped form starts with the form of the first character.
proof fn lemma_escape_front(s: Seq<char>)
    requires
        s.len() > 0,
    ensures
        xml_escaped(s) == xml_form(s[0]) + xml_escaped(s.skip(1)),
{
    let head = seq![s[0]];
    law_escape_distributes(head, s.skip(1));
    assert(head + s.skip(1) =~= s);
    assert(head.drop_last() =~= Seq::<char>::empty());
    assert(xml_escaped(head) =~= xml_form(s[0])) by {
        assert(xml_escaped(head.drop_last()) =~= Seq::<char>::empty());
    }
}

/// A string without special characters is left as it is.
pub proof fn law_escape_keeps_plain_text(s: Seq<char>)
    requires
        forall|i: int| 0 <= i < s.len() ==> !is_xml_special(#[trigger] s[i]),
    ensures
        xml_escaped(s) == s,
    decreases s.len(),
{
    if s.len() > 0 {
        law_escape_keeps_plain_text(s.drop_last());
        lemma_xml_form(s.last());
        assert(s.drop_last() + seq![s.last()] =~= s);
    }
}

/// The only special character in an escaped string is the ampersand: there is no raw angle
/// bracket or quote.
pub proof fn law_escape_leaves_no_raw_special(s: Seq<char>)
    ensures
        forall|i: int|
            0 <= i < xml_escaped(s).len() ==> (is_xml_special(#[trigger] xml_escaped(s)[i])
                ==> xml_escaped(s)[i] == '&'),
    decreases s.len(),
{
    if s.len() > 0 {
        let before = xml_escaped(s.drop_last());
        let form = xml_form(s.last());
        law_escape_leaves_no_raw_special(s.drop_last());
        lemma_xml_form(s.last());
        assert forall|i: int|
            0 <= i < xml_escaped(s).len() && is_xml_special(
                #[trigger] xml_escaped(s)[i],
            ) implies xml_escaped(s)[i] == '&' by {
            if i < before.len() {
                assert(xml_escaped(s)[i] == before[i]);
            } else {
                assert(xml_escaped(s)[i] == form[i - before.len()]);
            }
        }
    }
}

/// Every ampersand in an escaped string starts one of the five entities.
pub proof fn law_ampersand_starts_entity(s: Seq<char>, i: int)
    requires
        0 <= i < xml_escaped(s).len(),
        xml_escaped(s)[i] == '&',
    ensures
        leading_entity(xml_escaped(s).skip(i)) is Some,
    decreases s.len(),
{
    lemma_escape_front(s);
    lemma_xml_form(s[0]);
    let form = xml_form(s[0]);
    let rest = xml_escaped(s.skip(1));
    if i < form.len() {
        lemma_leading_entity(s[0], rest);
        assert(xml_escaped(s).skip(0) =~= xml_escaped(s));
    } else {
        law_ampersand_starts_entity(s.skip(1), i - form.len());
        assert(xml_escaped(s).skip(i) =~= rest.skip(i - form.len()));
    }
}

/// Unescaping an escaped string gives the string back.
pub proof fn law_unescape_undoes_escape(s: Seq<char>)
    ensures
        xml_unescaped(xml_escaped(s)) == Some(s),
    decreases s.len(),
{
    if s.len() == 0 {
        assert(xml_escaped(s) =~= s);
    } else {
        let form = xml_form(s[0]);
        let rest = xml_escaped(s.skip(1));
        lemma_escape_front(s);
        lemma_xml_form(s[0]);
        law_unescape_undoes_escape(s.skip(1));
        assert((form + rest).skip(form.len() as int) =~= rest);
        assert(seq![s[0]] + s.skip(1) =~= s);
        if is_xml_special(s[0]) {
            lemma_leading_entity(s[0], rest);
        }
    }
}

/// UTF-8 encoding distributes over concatenation.
proof fn lemma_encode_concat(a: Seq<char>, b: Seq<char>)
    ensures
        encode_utf8(a + b) == encode_utf8(a) + encode_utf8(b),
    decreases a.len(),
{
    if a.len() == 0 {
        assert(a + b =~= b);
        assert(encode_utf8(a) + encode_utf8(b) =~= encode_utf8(b));
    } else {
        lemma_encode_concat(a.drop_first(), b);
        assert((a + b).drop_first() =~= a.drop_first() + b);
        assert(encode_utf8(a + b) =~= encode_utf8(a) + encode_utf8(b));
    }
}

/// Escaping never shortens a string, neither in characters nor in bytes.
pub proof fn law_escape_never_shortens(s: Seq<char>)
    ensures
        xml_escaped(s).len() >= s.len(),
        encode_utf8(xml_escaped(s)).len() >= encode_utf8(s).len(),
    decreases s.len(),
{
    if s.len() > 0 {
        let c = s.last();
        let one = seq![c];
        law_escape_never_shortens(s.drop_last());
        lemma_xml_form(c);
        lemma_encode_concat(xml_escaped(s.drop_last()), xml_form(c));
        lemma_encode_concat(s.drop_last(), one);
        assert(s.drop_last() + one =~= s);
        if is_xml_special(c) {
            assert(is_ascii_chars(one));
            is_ascii_chars_encode_utf8(one);
            assert(encode_utf8(one).len() == 1);
            assert(encode_utf8(xml_form(c)).len() >= 1);
        }
    }
}

/// A word that starts with an ampersand does not start inside a run without one.
proof fn lemma_occurrences_skip(run: Seq<char>, rest: Seq<char>, word: Seq<char>)
    requires
        word.len() > 0,
        word[0] == '&',
        forall|i: int| 0 <= i < run.len() ==> #[trigger] run[i] != '&',
    ensures
        occurrences(run + rest, word) == occurrences(rest, word),
    decreases run.len(),
{
    if run.len() == 0 {
        assert(run + rest =~= rest);
    } else {
        let s = run + rest;
        lemma_occurrences_skip(run.skip(1), rest, word);
        assert(s.skip(1) =~= run.skip(1) + rest);
        if word.is_prefix_of(s) {
            assert(s[0] == word[0]);
        }
    }
}

/// An escaped string holds the entity of a special character as often as the string holds the
/// character.
pub proof fn law_entity_counts(s: Seq<char>, c: char)
    requires
        is_xml_special(c),
    ensures
        occurrences(xml_escaped(s), xml_form(c)) == count_of(s, c),
    decreases s.len(),
{
    if s.len() > 0 {
        let form = xml_form(s[0]);
        let rest = xml_escaped(s.skip(1));
        let e = form + rest;
        lemma_escape_front(s);
        lemma_xml_form(s[0]);
        lemma_xml_form(c);
        law_entity_counts(s.skip(1), c);
        let run = form.skip(1);
        assert(e.skip(1) =~= run + rest);
        assert forall|i: int| 0 <= i < run.len() implies #[trigger] run[i] != '&' by {
            assert(run[i] == form[i + 1]);
        }
        lemma_occurrences_skip(run, rest, xml_form(c));
        if is_xml_special(s[0]) {
            lemma_leading_entity(s[0], rest);
        } else if xml_form(c).is_prefix_of(e) {
            assert(e[0] == xml_form(c)[0]);
        }
    }
}

/// What a single character is written as.
pub proof fn law_escape_of_one_character(c: char)
    ensures
        c == '&' ==> xml_escaped(seq![c]) == seq!['&', 'a', 'm', 'p', ';'],
        c == '<' ==> xml_escaped(seq![c]) == seq!['&', 'l', 't', ';'],
        c == '>' ==> xml_escaped(seq![c]) == seq!['&', 'g', 't', ';'],
        c == '"' ==> xml_escaped(seq![c]) == seq!['&', 'q', 'u', 'o', 't', ';'],
        c == '\'' ==> xml_escaped(seq![c]) == seq!['&', 'a', 'p', 'o', 's', ';'],
        c != '&' && c != '<' && c != '>' && c != '"' && c != '\'' ==> xml_escaped(seq![c])
            == seq![c],
{
    reveal_strlit("&amp;");
    reveal_strlit("&lt;");
    reveal_strlit("&gt;");
    reveal_strlit("&quot;");
    reveal_strlit("&apos;");
    lemma_escape_front(seq![c]);
    let none = seq![c].skip(1);
    assert(xml_escaped(none) =~= Seq::<char>::empty());
    assert(xml_escaped(seq![c]) =~= xml_form(c));
    if c == '&' {
        assert(xml_form(c) =~= seq!['&', 'a', 'm', 'p', ';']);
    } else if c == '<' {
        assert(xml_form(c) =~= seq!['&', 'l', 't', ';']);
    } else if c == '>' {
        assert(xml_form(c) =~= seq!['&', 'g', 't', ';']);
    } else if c == '"' {
        assert(xml_form(c) =~= seq!['&', 'q', 'u', 'o', 't', ';']);
    } else if c == '\'' {
        assert(xml_form(c) =~= seq!['&', 'a', 'p', 'o', 's', ';']);
    }
}

} // verus!

//! The format of the secrets file.
//!
//! The file holds one `NAME=value` entry on each line. Blank lines, lines that start with `#` and
//! lines without `=` are passed over, and white space around names and values is dropped.

use vstd::prelude::*;
use crate::env_map::{
    lemma_ordered_insert, lemma_sorted_names, lemma_sorted_names_is, ordered, precedes,
    sorted_names, EnvMap, Entries,
};
use crate::text::{
    is_stripped, is_white_space, law_trimmed, lemma_position, lemma_position_is,
    lemma_strip_back_shape, lemma_strip_fixed, lemma_strip_front, lemma_strip_front_shape,
    lemma_strip_shape, position, split_at_first, split_once, trim, trimmed, Pattern,
};

verus! {

/// The first line of a secrets file.
pub const SECRETS_HEADER: &'static str =
    "# restic-backup secrets - keep this file private (mode 0600)";

/// The lines of `s`, without the line feeds that separate them.
pub open spec fn lines(s: Seq<char>) -> Seq<Seq<char>>
    decreases s.len(),
{
    proof {
        lemma_position(s, '\n');
    }
    if position(s, '\n') < s.len() {
        seq![s.take(position(s, '\n'))] + lines(s.skip(position(s, '\n') + 1))
    } else {
        seq![s]
    }
}

/// The entry on a line.
pub open spec fn entry_on(line: Seq<char>) -> Option<(Seq<char>, Seq<char>)> {
    let content = trimmed(line);
    if content.len() == 0 || content[0] == '#' {
        None
    } else {
        match split_at_first(content, '=') {
            Some((name, value)) => Some((trimmed(name), trimmed(value))),
            None => None,
        }
    }
}

/// The map with the entry on a line added.
pub open spec fn with_line(m: Entries, line: Seq<char>) -> Entries {
    match entry_on(line) {
        Some((name, value)) => m.insert(name, value),
        None => m,
    }
}

/// The map with the entries on the lines added, one after another.
pub open spec fn with_lines(m: Entries, ls: Seq<Seq<char>>) -> Entries
    decreases ls.len(),
{
    if ls.len() == 0 {
        m
    } else {
        with_lines(with_line(m, ls[0]), ls.skip(1))
    }
}

/// The entries of a secrets file; of two entries of one name the later one holds.
pub open spec fn parsed(content: Seq<char>) -> Entries {
    with_lines(Map::empty(), lines(content))
}

/// The line of an entry, with its line feed.
pub open spec fn entry_line(name: Seq<char>, value: Seq<char>) -> Seq<char> {
    name + seq!['='] + value + seq!['\n']
}

/// The lines of the named entries of a map.
pub open spec fn entry_lines(names: Seq<Seq<char>>, m: Entries) -> Seq<char>
    decreases names.len(),
{
    if names.len() == 0 {
        Seq::empty()
    } else {
        entry_lines(names.drop_last(), m) + entry_line(names.last(), m[names.last()])
    }
}

/// A secrets file: the header line and the entries in the order of their names.
pub open spec fn serialized(m: Entries) -> Seq<char> {
    SECRETS_HEADER@ + seq!['\n'] + entry_lines(sorted_names(m), m)
}

/// Adds the entry on a line to the map.
fn read_line(map: &mut EnvMap, line: &str)
    ensures
        final(map)@ == with_line(old(map)@, line@),
{
    let content = trim(line);
    if content.is_empty() || content.get_char(0) == '#' {
        return;
    }
    match split_once(content, '=') {
        Some((name, value)) => {
            map.insert(trim(name).to_owned(), trim(value).to_owned());
        },
        None => {},
    }
}

/// Reads the entries of a secrets file.
pub fn parse_secrets_content(content: &str) -> (map: EnvMap)
    ensures
        map@ == parsed(content@),
{
    let mut map = EnvMap::new();
    let mut rest: &str = content;
    loop
        invariant
            parsed(content@) == with_lines(map@, lines(rest@)),
        decreases rest@.len(),
    {
        proof {
            lemma_position(rest@, '\n');
        }
        let ghost before = rest@;
        match split_once(rest, '\n') {
            Some((line, tail)) => {
                proof {
                    let ls = lines(before);
                    assert(ls.skip(1) =~= lines(tail@));
                }
                read_line(&mut map, line);
                rest = tail;
            },
            None => {
                proof {
                    assert(lines(before).skip(1) =~= Seq::<Seq<char>>::empty());
                }
                read_line(&mut map, rest);
                proof {
                    assert(with_lines(map@, lines(before).skip(1)) == map@);
                }
                return map;
            },
        }
    }
}

/// Writes a secrets file.
pub fn serialize_secrets(map: &EnvMap) -> (out: String)
    ensures
        out@ == serialized(map@),
{
    let mut out = SECRETS_HEADER.to_owned();
    out.push('\n');
    let ghost head = SECRETS_HEADER@ + seq!['\n'];
    let ghost names = sorted_names(map@);
    proof {
        assert(out@ =~= head);
        assert(names.take(0) =~= Seq::<Seq<char>>::empty());
        assert(out@ =~= head + entry_lines(names.take(0), map@));
    }
    let n: usize = map.len();
    let mut i: usize = 0;
    while i < n
        invariant
            names == sorted_names(map@),
            n == names.len(),
            i <= n,
            out@ == head + entry_lines(names.take(i as int), map@),
        decreases n - i,
    {
        let (name, value) = map.entry(i);
        let ghost before = out@;
        out.append(name.as_str());
        out.push('=');
        out.append(value.as_str());
        out.push('\n');
        proof {
            let next = names.take(i + 1);
            assert(next.drop_last() =~= names.take(i as int));
            assert(next.last() == name@);
            assert(out@ =~= before + entry_line(name@, value@));
            assert(out@ =~= head + entry_lines(next, map@));
        }
        i = i + 1;
    }
    proof {
        assert(names.take(n as int) =~= names);
    }
    out
}

/// An entry that the file format can hold: the name and the value have no white space at their
/// ends and no line feed, and the name has no `=` and does not start with `#`.
pub open spec fn is_storable(name: Seq<char>, value: Seq<char>) -> bool {
    &&& is_stripped(name, Pattern::WhiteSpace)
    &&& is_stripped(value, Pattern::WhiteSpace)
    &&& !name.contains('\n')
    &&& !value.contains('\n')
    &&& !name.contains('=')
    &&& name.len() > 0 ==> name[0] != '#'
}

/// Every entry of the map is storable.
pub open spec fn all_storable(m: Entries) -> bool {
    forall|name: Seq<char>| #[trigger] m.contains_key(name) ==> is_storable(name, m[name])
}

/// A storable entry is what its line holds.
proof fn lemma_entry_on_its_line(name: Seq<char>, value: Seq<char>)
    requires
        is_storable(name, value),
    ensures
        entry_on(name + seq!['='] + value) == Some((name, value)),
{
    let line = name + seq!['='] + value;
    let n = name.len() as int;
    assert(line[n] == '=');
    assert(line[0] == if n > 0 {
        name[0]
    } else {
        '='
    });
    assert(line.last() == if value.len() > 0 {
        value.last()
    } else {
        '='
    });
    lemma_strip_fixed(line, Pattern::WhiteSpace);
    assert forall|i: int| 0 <= i < n implies line[i] != '=' by {
        assert(line[i] == name[i]);
        assert(name.contains(name[i]));
    }
    lemma_position_is(line, '=', n);
    lemma_position(line, '=');
    assert(line.take(n) =~= name);
    assert(line.skip(n + 1) =~= value);
    lemma_strip_fixed(name, Pattern::WhiteSpace);
    lemma_strip_fixed(value, Pattern::WhiteSpace);
}

/// Every entry on a line without a line feed is storable.
proof fn lemma_entry_is_storable(line: Seq<char>)
    requires
        !line.contains('\n'),
    ensures
        entry_on(line) matches Some((name, value)) ==> is_storable(name, value),
{
    let ws = Pattern::WhiteSpace;
    let content = trimmed(line);
    let b = lemma_strip_shape(line, ws);
    if content.len() > 0 && content[0] != '#' && content.contains('=') {
        let p = position(content, '=');
        lemma_position(content, '=');
        let left = content.take(p);
        let right = content.skip(p + 1);
        let name = trimmed(left);
        let value = trimmed(right);
        let l = lemma_strip_shape(left, ws);
        let r = lemma_strip_shape(right, ws);
        assert forall|i: int| 0 <= i < name.len() implies name[i] != '\n' && name[i] != '=' by {
            assert(name[i] == content[l.0 + i]);
            assert(content[l.0 + i] == line[b.0 + l.0 + i]);
        }
        assert forall|i: int| 0 <= i < value.len() implies value[i] != '\n' by {
            assert(value[i] == content[p + 1 + r.0 + i]);
            assert(value[i] == line[b.0 + p + 1 + r.0 + i]);
        }
        if name.len() > 0 {
            let k = lemma_strip_front_shape(left, ws);
            assert(left[0] == content[0]);
            assert(k == 0);
            assert(left.skip(0) =~= left);
            let j = lemma_strip_back_shape(left, ws);
            assert(name[0] == content[0]);
        }
    }
}

/// No line holds a line feed.
proof fn lemma_lines_hold_no_feed(s: Seq<char>)
    ensures
        forall|i: int| 0 <= i < lines(s).len() ==> !(#[trigger] lines(s)[i]).contains('\n'),
    decreases s.len(),
{
    let p = position(s, '\n');
    lemma_position(s, '\n');
    if p < s.len() {
        lemma_lines_hold_no_feed(s.skip(p + 1));
        assert forall|i: int|
            0 <= i < lines(s).len() implies !(#[trigger] lines(s)[i]).contains('\n') by {
            if i > 0 {
                assert(lines(s)[i] == lines(s.skip(p + 1))[i - 1]);
            }
        }
    }
}

/// Reading storable lines into a finite map of storable entries gives such a map.
proof fn lemma_with_lines_storable(m: Entries, ls: Seq<Seq<char>>)
    requires
        m.dom().finite(),
        all_storable(m),
        forall|i: int| 0 <= i < ls.len() ==> !(#[trigger] ls[i]).contains('\n'),
    ensures
        with_lines(m, ls).dom().finite(),
        all_storable(with_lines(m, ls)),
    decreases ls.len(),
{
    if ls.len() > 0 {
        lemma_entry_is_storable(ls[0]);
        let next = with_line(m, ls[0]);
        assert(all_storable(next));
        let rest = ls.skip(1);
        assert forall|i: int| 0 <= i < rest.len() implies !(#[trigger] rest[i]).contains('\n') by {
            assert(rest[i] == ls[i + 1]);
        }
        lemma_with_lines_storable(next, rest);
    }
}

/// Whatever a secrets file holds, the entries read from it are storable.
pub proof fn law_parsed_entries_are_storable(content: Seq<char>)
    ensures
        parsed(content).dom().finite(),
        all_storable(parsed(content)),
{
    lemma_lines_hold_no_feed(content);
    lemma_with_lines_storable(Map::empty(), lines(content));
}

/// The first line of a text that starts with a line.
proof fn lemma_lines_front(line: Seq<char>, rest: Seq<char>)
    requires
        !line.contains('\n'),
    ensures
        lines(line + seq!['\n'] + rest) == seq![line] + lines(rest),
{
    let s = line + seq!['\n'] + rest;
    let n = line.len() as int;
    assert(s[n] == '\n');
    assert forall|i: int| 0 <= i < n implies s[i] != '\n' by {
        assert(s[i] == line[i]);
        assert(line.contains(line[i]));
    }
    lemma_position_is(s, '\n', n);
    assert(s.take(n) =~= line);
    assert(s.skip(n + 1) =~= rest);
}

/// The lines of the entries start with the line of the first one.
proof fn lemma_entry_lines_front(names: Seq<Seq<char>>, m: Entries)
    requires
        names.len() > 0,
    ensures
        entry_lines(names, m) == entry_line(names[0], m[names[0]]) + entry_lines(names.skip(1), m),
    decreases names.len(),
{
    let first = entry_line(names[0], m[names[0]]);
    if names.len() == 1 {
        assert(names.drop_last() =~= Seq::<Seq<char>>::empty());
        assert(names.skip(1) =~= Seq::<Seq<char>>::empty());
        assert(entry_lines(names, m) =~= first + entry_lines(names.skip(1), m));
    } else {
        lemma_entry_lines_front(names.drop_last(), m);
        assert(names.drop_last().skip(1) =~= names.skip(1).drop_last());
        assert(entry_lines(names, m) =~= first + entry_lines(names.skip(1), m));
    }
}

/// The line of a storable entry holds no line feed.
proof fn lemma_no_feed_in_entry(name: Seq<char>, value: Seq<char>)
    requires
        is_storable(name, value),
    ensures
        !(name + seq!['='] + value).contains('\n'),
{
    let line = name + seq!['='] + value;
    assert forall|i: int| 0 <= i < line.len() implies line[i] != '\n' by {
        if i < name.len() {
            assert(line[i] == name[i]);
            assert(name.contains(name[i]));
        } else if i > name.len() {
            assert(line[i] == value[i - name.len() - 1]);
            assert(value.contains(value[i - name.len() - 1]));
        }
    }
}

/// The header is one line, and a comment.
proof fn lemma_header()
    ensures
        !SECRETS_HEADER@.contains('\n'),
        entry_on(SECRETS_HEADER@) is None,
{
    let header = SECRETS_HEADER@;
    reveal_strlit("# restic-backup secrets - keep this file private (mode 0600)");
    assert(header[0] == '#');
    assert(header.last() == ')');
    lemma_strip_fixed(header, Pattern::WhiteSpace);
}

/// The names of a map of storable entries are storable with their values.
proof fn lemma_names_storable(m: Entries)
    requires
        m.dom().finite(),
        all_storable(m),
    ensures
        forall|i: int|
            0 <= i < sorted_names(m).len() ==> is_storable(
                #[trigger] sorted_names(m)[i],
                m[sorted_names(m)[i]],
            ),
{
    let names = sorted_names(m);
    lemma_sorted_names(m);
    assert forall|i: int| 0 <= i < names.len() implies is_storable(
        #[trigger] names[i],
        m[names[i]],
    ) by {
        assert(names.to_set().contains(names[i]));
        assert(m.contains_key(names[i]));
    }
}

/// Reading the lines of storable entries adds exactly these entries.
proof fn lemma_read_back(acc: Entries, names: Seq<Seq<char>>, m: Entries)
    requires
        forall|i: int| 0 <= i < names.len() ==> is_storable(#[trigger] names[i], m[names[i]]),
    ensures
        ({
            let out = with_lines(acc, lines(entry_lines(names, m)));
            &&& forall|k: Seq<char>| #[trigger]
                out.contains_key(k) <==> acc.contains_key(k) || names.contains(k)
            &&& forall|k: Seq<char>| names.contains(k) ==> #[trigger] out[k] == m[k]
            &&& forall|k: Seq<char>|
                acc.contains_key(k) && !names.contains(k) ==> #[trigger] out[k] == acc[k]
        }),
    decreases names.len(),
{
    let text = entry_lines(names, m);
    if names.len() == 0 {
        lemma_position(text, '\n');
        assert(lines(text) =~= seq![text]);
        assert(lines(text).skip(1) =~= Seq::<Seq<char>>::empty());
        assert(trimmed(text) =~= text);
        assert(with_line(acc, text) == acc);
        assert(with_lines(acc, lines(text)) == with_lines(acc, lines(text).skip(1)));
    } else {
        let name = names[0];
        let value = m[name];
        let line = name + seq!['='] + value;
        let rest = names.skip(1);
        let tail = entry_lines(rest, m);
        assert(is_storable(names[0], m[names[0]]));
        lemma_entry_lines_front(names, m);
        assert(text =~= line + seq!['\n'] + tail);
        lemma_no_feed_in_entry(name, value);
        lemma_lines_front(line, tail);
        lemma_entry_on_its_line(name, value);
        let ls = lines(text);
        assert(ls[0] == line);
        assert(ls.skip(1) =~= lines(tail));
        assert forall|i: int|
            0 <= i < rest.len() implies is_storable(#[trigger] rest[i], m[rest[i]]) by {
            assert(rest[i] == names[i + 1]);
        }
        let next = acc.insert(name, value);
        lemma_read_back(next, rest, m);
        let out = with_lines(next, lines(tail));
        assert(with_lines(acc, ls) == out);
        assert forall|k: Seq<char>| names.contains(k) <==> k == name || rest.contains(k) by {
            if names.contains(k) {
                let i = choose|i: int| 0 <= i < names.len() && names[i] == k;
                if i > 0 {
                    assert(rest[i - 1] == k);
                }
            }
            if rest.contains(k) {
                let i = choose|i: int| 0 <= i < rest.len() && rest[i] == k;
                assert(names[i + 1] == k);
            }
            assert(names[0] == name);
        }
    }
}

/// A secrets file gives back the map that was written to it exactly where every entry of the map
/// is storable.
pub proof fn law_written_secrets_are_read_back(m: Entries)
    requires
        m.dom().finite(),
    ensures
        parsed(serialized(m)) == m <==> all_storable(m),
{
    law_parsed_entries_are_storable(serialized(m));
    if all_storable(m) {
        let names = sorted_names(m);
        lemma_sorted_names(m);
        lemma_names_storable(m);
        lemma_header();
        let body = entry_lines(names, m);
        lemma_lines_front(SECRETS_HEADER@, body);
        let ls = lines(serialized(m));
        assert(ls.skip(1) =~= lines(body));
        lemma_read_back(Map::empty(), names, m);
        let out = parsed(serialized(m));
        assert(out == with_lines(Map::empty(), lines(body)));
        assert forall|k: Seq<char>| out.contains_key(k) <==> m.contains_key(k) by {
            assert(names.to_set().contains(k) <==> names.contains(k));
        }
        assert(out =~= m);
    }
}

/// The lines that the lines of storable entries are made of.
proof fn lemma_lines_of_entries(names: Seq<Seq<char>>, m: Entries)
    requires
        forall|i: int| 0 <= i < names.len() ==> is_storable(#[trigger] names[i], m[names[i]]),
    ensures
        lines(entry_lines(names, m)).len() == names.len() + 1,
        lines(entry_lines(names, m)).last() == Seq::<char>::empty(),
        forall|i: int|
            0 <= i < names.len() ==> lines(entry_lines(names, m))[i] == #[trigger] names[i]
                + seq!['='] + m[names[i]],
    decreases names.len(),
{
    let text = entry_lines(names, m);
    if names.len() == 0 {
        lemma_position(text, '\n');
    } else {
        let line = names[0] + seq!['='] + m[names[0]];
        let rest = names.skip(1);
        let tail = entry_lines(rest, m);
        assert(is_storable(names[0], m[names[0]]));
        lemma_entry_lines_front(names, m);
        assert(text =~= line + seq!['\n'] + tail);
        lemma_no_feed_in_entry(names[0], m[names[0]]);
        lemma_lines_front(line, tail);
        assert forall|i: int| 0 <= i < rest.len() implies is_storable(
            #[trigger] rest[i],
            m[rest[i]],
        ) by {
            assert(rest[i] == names[i + 1]);
        }
        lemma_lines_of_entries(rest, m);
        assert forall|i: int| 0 <= i < names.len() implies lines(text)[i] == #[trigger] names[i]
            + seq!['='] + m[names[i]] by {
            if i > 0 {
                assert(rest[i - 1] == names[i]);
                assert(lines(text)[i] == lines(tail)[i - 1]);
            }
        }
    }
}

/// A secrets file of storable entries lists the names of the map, each once and in order: the
/// header, then a line for each entry.
pub proof fn law_file_lists_names_in_order(m: Entries)
    requires
        m.dom().finite(),
        all_storable(m),
    ensures
        ({
            let names = sorted_names(m);
            let ls = lines(serialized(m));
            &&& ordered(names)
            &&& names.to_set() == m.dom()
            &&& ls.len() == names.len() + 2
            &&& ls[0] == SECRETS_HEADER@
            &&& forall|i: int|
                0 <= i < names.len() ==> ls[i + 1] == #[trigger] names[i] + seq!['='] + m[names[i]]
            &&& ls.last() == Seq::<char>::empty()
        }),
{
    let names = sorted_names(m);
    lemma_sorted_names(m);
    lemma_names_storable(m);
    lemma_header();
    let body = entry_lines(names, m);
    lemma_lines_front(SECRETS_HEADER@, body);
    lemma_lines_of_entries(names, m);
    let ls = lines(serialized(m));
    assert forall|i: int| 0 <= i < names.len() implies ls[i + 1] == #[trigger] names[i] + seq!['=']
        + m[names[i]] by {
        assert(ls[i + 1] == lines(body)[i]);
    }
}

/// Whatever a secrets file holds, writing what was read from it and reading that again changes
/// nothing.
pub proof fn law_rewriting_keeps_secrets(content: Seq<char>)
    ensures
        parsed(serialized(parsed(content))) == parsed(content),
{
    law_parsed_entries_are_storable(content);
    law_written_secrets_are_read_back(parsed(content));
}

/// The lines of two texts with a line feed between them are those of the first, then those of the
/// second.
proof fn lemma_lines_concat(a: Seq<char>, b: Seq<char>)
    ensures
        lines(a + seq!['\n'] + b) == lines(a) + lines(b),
    decreases a.len(),
{
    let p = position(a, '\n');
    lemma_position(a, '\n');
    if p < a.len() {
        let line = a.take(p);
        let rest = a.skip(p + 1);
        assert(!line.contains('\n'));
        lemma_lines_concat(rest, b);
        assert(a + seq!['\n'] + b =~= line + seq!['\n'] + (rest + seq!['\n'] + b));
        lemma_lines_front(line, rest + seq!['\n'] + b);
        assert(seq![line] + (lines(rest) + lines(b)) =~= seq![line] + lines(rest) + lines(b));
    } else {
        lemma_lines_front(a, b);
        assert(lines(a) =~= seq![a]);
    }
}

/// Reading lines in two steps is reading them in one.
proof fn lemma_with_lines_concat(m: Entries, a: Seq<Seq<char>>, b: Seq<Seq<char>>)
    ensures
        with_lines(m, a + b) == with_lines(with_lines(m, a), b),
    decreases a.len(),
{
    if a.len() == 0 {
        assert(a + b =~= b);
    } else {
        lemma_with_lines_concat(with_line(m, a[0]), a.skip(1), b);
        assert((a + b).skip(1) =~= a.skip(1) + b);
    }
}

/// A line added to a file adds its entry to what was read before, in place of an earlier entry of
/// that name; a line without an entry (blank, a comment, no `=`) adds nothing.
pub proof fn law_added_line(content: Seq<char>, line: Seq<char>)
    requires
        !line.contains('\n'),
    ensures
        parsed(content + seq!['\n'] + line) == with_line(parsed(content), line),
{
    lemma_lines_concat(content, line);
    lemma_with_lines_concat(Map::empty(), lines(content), lines(line));
    lemma_position(line, '\n');
    let m = parsed(content);
    assert(lines(line) =~= seq![line]);
    assert(lines(line).skip(1) =~= Seq::<Seq<char>>::empty());
    assert(with_lines(m, lines(line)) == with_lines(with_line(m, line), lines(line).skip(1)));
}

/// A text without a character holds no entry, and a line feed before a text changes nothing.
pub proof fn law_empty_text(content: Seq<char>)
    ensures
        parsed(Seq::empty()) == Map::<Seq<char>, Seq<char>>::empty(),
        parsed(seq!['\n'] + content) == parsed(content),
{
    let none = Seq::<char>::empty();
    law_trimmed(none, 0, 0);
    lemma_position(none, '\n');
    assert(lines(none) =~= seq![none]);
    assert(lines(none).skip(1) =~= Seq::<Seq<char>>::empty());
    assert(with_line(Map::empty(), none) == Map::<Seq<char>, Seq<char>>::empty());
    let m = Map::<Seq<char>, Seq<char>>::empty();
    assert(with_lines(m, lines(none)) == with_lines(with_line(m, none), lines(none).skip(1)));
    lemma_lines_front(none, content);
    assert(none + seq!['\n'] + content =~= seq!['\n'] + content);
    let ls = lines(seq!['\n'] + content);
    assert(ls.skip(1) =~= lines(content));
}

/// A line whose first character that is not white space is `#` adds nothing, whatever follows.
pub proof fn law_comment_adds_nothing(content: Seq<char>, line: Seq<char>, k: int)
    requires
        !line.contains('\n'),
        0 <= k < line.len(),
        forall|i: int| 0 <= i < k ==> is_white_space(#[trigger] line[i]),
        line[k] == '#',
    ensures
        parsed(content + seq!['\n'] + line) == parsed(content),
{
    law_added_line(content, line);
    lemma_strip_front(line, Pattern::WhiteSpace, k);
    let rest = line.skip(k);
    let j = lemma_strip_back_shape(rest, Pattern::WhiteSpace);
    assert(rest[0] == '#');
    assert(trimmed(line) == rest.take(j));
    assert(j > 0);
}

/// A line of white space only adds nothing.
pub proof fn law_blank_line_adds_nothing(content: Seq<char>, line: Seq<char>)
    requires
        !line.contains('\n'),
        forall|i: int| 0 <= i < line.len() ==> is_white_space(#[trigger] line[i]),
    ensures
        parsed(content + seq!['\n'] + line) == parsed(content),
{
    law_added_line(content, line);
    law_trimmed(line, 0, 0);
}

/// A line without `=` adds nothing.
pub proof fn law_line_without_equals_adds_nothing(content: Seq<char>, line: Seq<char>)
    requires
        !line.contains('\n'),
        !line.contains('='),
    ensures
        parsed(content + seq!['\n'] + line) == parsed(content),
{
    law_added_line(content, line);
    let b = lemma_strip_shape(line, Pattern::WhiteSpace);
    assert forall|i: int| 0 <= i < trimmed(line).len() implies trimmed(line)[i] != '=' by {
        assert(trimmed(line)[i] == line[b.0 + i]);
    }
}

/// A line of a name, the line's first `=` and a value, with or without white space around either,
/// gives the name the value, character for character. The name may be empty, and does not start
/// with `#`.
pub proof fn law_entry_line(
    content: Seq<char>,
    line: Seq<char>,
    name: (int, int),
    equals: int,
    value: (int, int),
)
    requires
        !line.contains('\n'),
        0 <= name.0 <= name.1 <= equals < value.0 <= value.1 <= line.len(),
        forall|i: int|
            0 <= i < name.0 || name.1 <= i < equals || equals < i < value.0 || value.1 <= i
                < line.len() ==> is_white_space(#[trigger] line[i]),
        line[equals] == '=',
        forall|i: int| 0 <= i < equals ==> #[trigger] line[i] != '=',
        name.0 < name.1 ==> !is_white_space(line[name.0]) && !is_white_space(line[name.1 - 1])
            && line[name.0] != '#',
        value.0 < value.1 ==> !is_white_space(line[value.0]) && !is_white_space(line[value.1 - 1]),
    ensures
        parsed(content + seq!['\n'] + line) == parsed(content).insert(
            line.subrange(name.0, name.1),
            line.subrange(value.0, value.1),
        ),
{
    law_added_line(content, line);
    let lo = if name.0 < name.1 {
        name.0
    } else {
        equals
    };
    let hi = if value.0 < value.1 {
        value.1
    } else {
        equals + 1
    };
    law_trimmed(line, lo, hi);
    let entry = line.subrange(lo, hi);
    lemma_position_is(entry, '=', equals - lo);
    lemma_position(entry, '=');
    let left = line.subrange(lo, equals);
    let right = line.subrange(equals + 1, hi);
    assert(entry.take(equals - lo) =~= left);
    assert(entry.skip(equals - lo + 1) =~= right);
    if name.0 < name.1 {
        law_trimmed(left, 0, name.1 - lo);
        assert(left.subrange(0, name.1 - lo) =~= line.subrange(name.0, name.1));
    } else {
        law_trimmed(left, 0, 0);
        assert(left.subrange(0, 0) =~= line.subrange(name.0, name.1));
    }
    if value.0 < value.1 {
        law_trimmed(right, value.0 - equals - 1, value.1 - equals - 1);
        assert(right.subrange(value.0 - equals - 1, value.1 - equals - 1) =~= line.subrange(
            value.0,
            value.1,
        ));
    } else {
        law_trimmed(right, 0, 0);
        assert(right.subrange(0, 0) =~= line.subrange(value.0, value.1));
    }
    assert(entry[0] == line[lo]);
}

/// The file of no entries is the header line; an entry whose name comes after all others adds a
/// line at the end of the file, with the name and the value as they are.
pub proof fn law_last_entry_ends_the_file(m: Entries, name: Seq<char>, value: Seq<char>)
    requires
        m.dom().finite(),
        forall|other: Seq<char>| #[trigger] m.contains_key(other) ==> precedes(other, name),
        !m.contains_key(name),
    ensures
        serialized(Map::empty())
            == "# restic-backup secrets - keep this file private (mode 0600)"@ + seq!['\n'],
        serialized(m.insert(name, value)) == serialized(m) + name + seq!['='] + value + seq!['\n'],
{
    let none = Map::<Seq<char>, Seq<char>>::empty();
    let no_names = Seq::<Seq<char>>::empty();
    assert(no_names.to_set() =~= none.dom());
    lemma_sorted_names_is(none, no_names);
    assert(serialized(none) =~= SECRETS_HEADER@ + seq!['\n']);

    let names = sorted_names(m);
    let next = m.insert(name, value);
    lemma_sorted_names(m);
    assert forall|i: int| 0 <= i < names.len() implies precedes(#[trigger] names[i], name) by {
        assert(names.to_set().contains(names[i]));
        assert(m.contains_key(names[i]));
    }
    let k = names.len() as int;
    lemma_ordered_insert(names, k, name);
    assert(names.insert(k, name) =~= names.push(name));
    assert(next.dom() =~= m.dom().insert(name));
    lemma_sorted_names_is(next, names.push(name));
    assert(names.push(name).drop_last() =~= names);
    assert forall|i: int| 0 <= i < names.len() implies m[#[trigger] names[i]] == next[names[i]] by {
        assert(names.to_set().contains(names[i]));
        assert(m.contains_key(names[i]));
    }
    lemma_entry_lines_same(names, m, next);
    assert(serialized(next) =~= serialized(m) + name + seq!['='] + value + seq!['\n']);
}

/// The lines of entries depend on the values of the named entries alone.
proof fn lemma_entry_lines_same(names: Seq<Seq<char>>, a: Entries, b: Entries)
    requires
        forall|i: int| 0 <= i < names.len() ==> a[#[trigger] names[i]] == b[names[i]],
    ensures
        entry_lines(names, a) == entry_lines(names, b),
    decreases names.len(),
{
    if names.len() > 0 {
        let rest = names.drop_last();
        assert forall|i: int| 0 <= i < rest.len() implies a[#[trigger] rest[i]] == b[rest[i]] by {
            assert(rest[i] == names[i]);
        }
        lemma_entry_lines_same(rest, a, b);
        assert(a[names[names.len() - 1]] == b[names[names.len() - 1]]);
    }
}

} // verus!

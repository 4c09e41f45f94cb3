//! Paths as text: components are separated by `/`.

use vstd::prelude::*;
use crate::text::{
    characters, lemma_first_piece, lemma_one_piece, lemma_pieces_of_both, pieces,
};

verus! {

/// `part` below `base`. An absolute `part` replaces `base`; a separator is added only where
/// `base` is not empty and does not end with one.
pub open spec fn joined(base: Seq<char>, part: Seq<char>) -> Seq<char> {
    if part.len() > 0 && part[0] == '/' {
        part
    } else if base.len() == 0 || base.last() == '/' {
        base + part
    } else {
        base.push('/') + part
    }
}

/// The index behind the last separator of `s`, 0 where there is none.
pub open spec fn last_component_start(s: Seq<char>) -> int
    decreases s.len(),
{
    if s.len() == 0 || s.last() == '/' {
        s.len() as int
    } else {
        last_component_start(s.drop_last())
    }
}

/// The final component of a path: empty components and `.` are passed over, and a path that ends
/// in `..` or has no component left has no final component.
pub open spec fn final_component(s: Seq<char>) -> Option<Seq<char>>
    decreases s.len(),
{
    let start = last_component_start(s);
    let part = s.skip(start);
    if part.len() > 0 && part != seq!['.'] {
        if part == seq!['.', '.'] {
            None
        } else {
            Some(part)
        }
    } else if 0 < start <= s.len() {
        final_component(s.take(start - 1))
    } else {
        None
    }
}

/// [`last_component_start`] is an index that no separator follows.
proof fn lemma_last_component_start(s: Seq<char>, k: int)
    requires
        0 <= k <= s.len(),
        k > 0 ==> s[k - 1] == '/',
        forall|i: int| k <= i < s.len() ==> s[i] != '/',
    ensures
        last_component_start(s) == k,
    decreases s.len(),
{
    if k < s.len() {
        lemma_last_component_start(s.drop_last(), k);
    }
}

/// Puts `part` below `base`.
pub fn join_path(base: &str, part: &str) -> (out: String)
    ensures
        out@ == joined(base@, part@),
{
    let p = characters(part);
    if p.len() > 0 && p[0] == '/' {
        return part.to_owned();
    }
    let b = characters(base);
    let mut out = base.to_owned();
    if b.len() > 0 && b[b.len() - 1] != '/' {
        out.push('/');
    }
    out.append(part);
    out
}

/// The final component of a path, where there is one.
pub fn file_name(path: &str) -> (out: Option<String>)
    ensures
        match out {
            Some(name) => final_component(path@) == Some(name@),
            None => final_component(path@) is None,
        },
{
    let v = characters(path);
    let mut end: usize = v.len();
    proof {
        assert(path@.take(end as int) =~= path@);
    }
    loop
        invariant
            v@ == path@,
            end <= v.len(),
            final_component(path@) == final_component(path@.take(end as int)),
        decreases end,
    {
        let ghost s = path@.take(end as int);
        let mut start: usize = end;
        while start > 0 && v[start - 1] != '/'
            invariant
                v@ == path@,
                start <= end <= v.len(),
                forall|i: int| start <= i < end ==> v@[i] != '/',
            ensures
                start > 0 ==> v@[start - 1] == '/',
            decreases start,
        {
            start = start - 1;
        }
        proof {
            lemma_last_component_start(s, start as int);
        }
        let ghost part = s.skip(start as int);
        let length: usize = end - start;
        let dot = length == 1 && v[start] == '.';
        let dots = length == 2 && v[start] == '.' && v[start + 1] == '.';
        proof {
            assert(length > 0 ==> part[0] == v@[start as int]);
            assert(length > 1 ==> part[1] == v@[start + 1]);
            assert(dot <==> part =~= seq!['.']);
            assert(dots <==> part =~= seq!['.', '.']);
        }
        if length > 0 && !dot {
            if dots {
                return None;
            }
            proof {
                assert(path@.subrange(start as int, end as int) =~= part);
            }
            return Some(path.substring_char(start, end).to_owned());
        }
        if start == 0 {
            return None;
        }
        proof {
            assert(s.take(start - 1) =~= path@.take(start - 1));
        }
        end = start - 1;
    }
}

/// The components of a path below a base are those of the base, then those of the path; a separator
/// at the end of the base is not doubled, and an absolute path stands alone.
pub proof fn law_joined_components(base: Seq<char>, part: Seq<char>)
    ensures
        ({
            let all = pieces(joined(base, part), '/');
            if part.len() > 0 && part[0] == '/' {
                all == pieces(part, '/')
            } else if base.len() == 0 {
                all == pieces(part, '/')
            } else if base.last() == '/' {
                all == pieces(base, '/').drop_last() + pieces(part, '/')
            } else {
                all == pieces(base, '/') + pieces(part, '/')
            }
        }),
{
    let slash = seq!['/'];
    let none = Seq::<char>::empty();
    if part.len() > 0 && part[0] == '/' {
    } else if base.len() == 0 {
        assert(base + part =~= part);
    } else {
        lemma_one_piece(none, '/');
        lemma_first_piece(none, '/', none);
        assert(none + slash + none =~= slash);
        assert(pieces(slash, '/') =~= seq![none, none]);
        let front = if base.last() == '/' {
            base.drop_last()
        } else {
            base
        };
        lemma_pieces_of_both(front, slash, '/');
        let full = front + slash;
        assert(pieces(front, '/').last() + none =~= pieces(front, '/').last());
        assert(pieces(full, '/') =~= pieces(front, '/').push(none));
        lemma_pieces_of_both(full, part, '/');
        assert(none + pieces(part, '/')[0] =~= pieces(part, '/')[0]);
        assert(pieces(full + part, '/') =~= pieces(front, '/') + pieces(part, '/'));
        assert(joined(base, part) =~= full + part);
        if base.last() == '/' {
            assert(full =~= base);
            assert(pieces(base, '/').drop_last() =~= pieces(front, '/'));
        }
    }
}

/// A name put below a base is the final component of the path, and separators and `.` behind it
/// change nothing; behind `..`, or with nothing, there is no final component.
pub proof fn law_final_component_is_last_name(base: Seq<char>, name: Seq<char>, path: Seq<char>)
    requires
        name.len() > 0,
        !name.contains('/'),
        name != seq!['.'],
        name != seq!['.', '.'],
    ensures
        final_component(joined(base, name)) == Some(name),
        final_component(path.push('/')) == final_component(path),
        final_component(path + seq!['/', '.']) == final_component(path),
        final_component(path + seq!['/', '.', '.']) is None,
        final_component(Seq::empty()) is None,
{
    let s = joined(base, name);
    let n = s.len() - name.len();
    assert(name[0] != '/') by {
        assert(name.contains(name[0]));
    }
    assert forall|i: int| n <= i < s.len() implies s[i] != '/' by {
        assert(s[i] == name[i - n]);
        assert(name.contains(name[i - n]));
    }
    lemma_last_component_start(s, n);
    assert(s.skip(n) =~= name);

    let a = path.push('/');
    lemma_last_component_start(a, a.len() as int);
    assert(a.skip(a.len() as int).len() == 0);
    assert(a.take(a.len() - 1) =~= path);

    let b = path + seq!['/', '.'];
    lemma_last_component_start(b, b.len() - 1);
    assert(b.skip(b.len() - 1) =~= seq!['.']);
    assert(b.take(b.len() - 2) =~= path);

    let c = path + seq!['/', '.', '.'];
    lemma_last_component_start(c, c.len() - 2);
    assert(c.skip(c.len() - 2) =~= seq!['.', '.']);
    assert(seq!['.', '.'].len() != seq!['.'].len());
}

} // verus!

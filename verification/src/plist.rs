//! Reading property lists.
//!
//! A document is read through its pieces, the parts between its opening angle brackets: a tag, and
//! the text behind it. Keys are found by their names, wherever they stand.

use vstd::prelude::*;
use crate::launchd::{
    calendar_text, interval_text, plist_text, weekday_text, PLIST_ARGUMENT, PLIST_ENVIRONMENT,
    PLIST_HEAD, PLIST_PROGRAM, PLIST_STDERR, PLIST_STDOUT, PLIST_TAIL,
};
use crate::path::joined;
use crate::text::{
    decimal, decimal_value, law_decimal_reads_back, lemma_first_piece, lemma_one_piece,
    lemma_pieces_of_both, pieces,
};
use crate::xml::{
    is_xml_special, law_escape_keeps_plain_text, law_escape_leaves_no_raw_special,
    law_unescape_undoes_escape, xml_escaped, xml_unescaped,
};

verus! {

/// The index of the first `x` in `ps`, or the length of `ps`.
pub open spec fn first_index(ps: Seq<Seq<char>>, x: Seq<char>) -> int
    decreases ps.len(),
{
    if ps.len() == 0 || ps[0] == x {
        0
    } else {
        1 + first_index(ps.skip(1), x)
    }
}

/// The index of the piece that names the key, or the number of pieces where there is none.
pub open spec fn key_index(doc: Seq<char>, key: Seq<char>) -> int {
    first_index(pieces(doc, '<'), "key>"@ + key)
}

/// Whether the document has the key.
pub open spec fn has_key(doc: Seq<char>, key: Seq<char>) -> bool {
    key_index(doc, key) < pieces(doc, '<').len()
}

/// The piece with the value of the key: the one behind the key's closing tag.
pub open spec fn value_piece(doc: Seq<char>, key: Seq<char>) -> Seq<char> {
    let i = key_index(doc, key) + 2;
    if i < pieces(doc, '<').len() {
        pieces(doc, '<')[i]
    } else {
        Seq::empty()
    }
}

/// The text behind the tag that a piece starts with.
pub open spec fn text_behind(piece: Seq<char>, tag: Seq<char>) -> Option<Seq<char>> {
    if tag.is_prefix_of(piece) {
        Some(piece.skip(tag.len() as int))
    } else {
        None
    }
}

/// The string that a piece holds, unescaped.
pub open spec fn string_in(piece: Seq<char>) -> Option<Seq<char>> {
    match text_behind(piece, "string>"@) {
        Some(text) => xml_unescaped(text),
        None => None,
    }
}

/// The string that is the value of the key.
pub open spec fn string_value(doc: Seq<char>, key: Seq<char>) -> Option<Seq<char>> {
    string_in(value_piece(doc, key))
}

/// The number that is the value of the key.
pub open spec fn integer_value(doc: Seq<char>, key: Seq<char>) -> Option<int> {
    match text_behind(value_piece(doc, key), "integer>"@) {
        Some(text) => Some(decimal_value(text)),
        None => None,
    }
}

/// The strings that stand one behind the other from the given piece on.
pub open spec fn strings_from(ps: Seq<Seq<char>>, i: int) -> Seq<Option<Seq<char>>>
    decreases ps.len() - i,
{
    if 0 <= i && i + 1 < ps.len() && "string>"@.is_prefix_of(ps[i]) {
        seq![string_in(ps[i])] + strings_from(ps, i + 2)
    } else {
        Seq::empty()
    }
}

/// The strings of the array that is the value of the key.
pub open spec fn array_value(doc: Seq<char>, key: Seq<char>) -> Seq<Option<Seq<char>>> {
    if "array>"@.is_prefix_of(value_piece(doc, key)) {
        strings_from(pieces(doc, '<'), key_index(doc, key) + 3)
    } else {
        Seq::empty()
    }
}

/// An index that holds `x` with no `x` before it is the first index.
proof fn lemma_first_index_is(ps: Seq<Seq<char>>, x: Seq<char>, k: int)
    requires
        0 <= k <= ps.len(),
        forall|i: int| 0 <= i < k ==> #[trigger] ps[i] != x,
        k < ps.len() ==> ps[k] == x,
    ensures
        first_index(ps, x) == k,
    decreases k,
{
    if k > 0 {
        assert(ps[0] != x);
        let rest = ps.skip(1);
        assert forall|i: int| 0 <= i < k - 1 implies #[trigger] rest[i] != x by {
            assert(rest[i] == ps[i + 1]);
        }
        lemma_first_index_is(rest, x, k - 1);
    }
}

/// The first index in two sequences put together.
proof fn lemma_first_index_in_both(a: Seq<Seq<char>>, b: Seq<Seq<char>>, x: Seq<char>)
    ensures
        0 <= first_index(a, x) <= a.len(),
        first_index(a + b, x) == (if first_index(a, x) < a.len() {
            first_index(a, x)
        } else {
            a.len() + first_index(b, x)
        }),
    decreases a.len(),
{
    if a.len() == 0 {
        assert(a + b =~= b);
    } else {
        lemma_first_index_in_both(a.skip(1), b, x);
        assert((a + b).skip(1) =~= a.skip(1) + b);
        assert((a + b)[0] == a[0]);
    }
}

/// Escaped text is one piece.
proof fn lemma_escaped_is_one_piece(s: Seq<char>)
    ensures
        pieces(xml_escaped(s), '<') == seq![xml_escaped(s)],
{
    law_escape_leaves_no_raw_special(s);
    assert forall|i: int| 0 <= i < xml_escaped(s).len() implies xml_escaped(s)[i] != '<' by {
        if xml_escaped(s)[i] == '<' {
            assert(is_xml_special(xml_escaped(s)[i]));
        }
    }
    lemma_one_piece(xml_escaped(s), '<');
}

/// The pieces of [`PLIST_HEAD`].
proof fn lemma_plist_head()
    ensures
        pieces(PLIST_HEAD@, '<') == seq![
            Seq::<char>::empty(),
            "?xml version=\"1.0\" encoding=\"UTF-8\"?>\n"@,
            "!DOCTYPE plist PUBLIC \"-//Apple//DTD PLIST 1.0//EN\" \"http://www.apple.com/DTDs/PropertyList-1.0.dtd\">\n"@,
            "plist version=\"1.0\">\n"@,
            "dict>\n"@,
            "key>Label"@,
            "/key>\n"@,
            "string>"@,
        ],
{
    reveal_strlit(
        "<?xml version=\"1.0\" encoding=\"UTF-8\"?>\n<!DOCTYPE plist PUBLIC \"-//Apple//DTD PLIST 1.0//EN\" \"http://www.apple.com/DTDs/PropertyList-1.0.dtd\">\n<plist version=\"1.0\">\n<dict>\n<key>Label</key>\n<string>",
    );
    reveal_strlit("?xml version=\"1.0\" encoding=\"UTF-8\"?>\n");
    reveal_strlit("!DOCTYPE plist PUBLIC \"-//Apple//DTD PLIST 1.0//EN\" \"http://www.apple.com/DTDs/PropertyList-1.0.dtd\">\n");
    reveal_strlit("plist version=\"1.0\">\n");
    reveal_strlit("dict>\n");
    reveal_strlit("key>Label");
    reveal_strlit("/key>\n");
    reveal_strlit("string>");
    let t7 = "string>"@;
    lemma_one_piece(t7, '<');
    let t6 = "/key>\n"@ + seq!['<'] + t7;
    lemma_first_piece("/key>\n"@, '<', t7);
    let t5 = "key>Label"@ + seq!['<'] + t6;
    lemma_first_piece("key>Label"@, '<', t6);
    let t4 = "dict>\n"@ + seq!['<'] + t5;
    lemma_first_piece("dict>\n"@, '<', t5);
    let t3 = "plist version=\"1.0\">\n"@ + seq!['<'] + t4;
    lemma_first_piece("plist version=\"1.0\">\n"@, '<', t4);
    let doctype =
        "!DOCTYPE plist PUBLIC \"-//Apple//DTD PLIST 1.0//EN\" \"http://www.apple.com/DTDs/PropertyList-1.0.dtd\">\n"@;
    let t2 = doctype + seq!['<'] + t3;
    lemma_first_piece(doctype, '<', t3);
    let t1 = "?xml version=\"1.0\" encoding=\"UTF-8\"?>\n"@ + seq!['<'] + t2;
    lemma_first_piece("?xml version=\"1.0\" encoding=\"UTF-8\"?>\n"@, '<', t2);
    let t0 = Seq::<char>::empty() + seq!['<'] + t1;
    lemma_first_piece(Seq::<char>::empty(), '<', t1);
    assert(PLIST_HEAD@ =~= t0);
}

/// The pieces of [`PLIST_PROGRAM`].
proof fn lemma_plist_program()
    ensures
        pieces(PLIST_PROGRAM@, '<') == seq![
            Seq::<char>::empty(),
            "/string>\n"@,
            "key>ProgramArguments"@,
            "/key>\n"@,
            "array>\n    "@,
            "string>"@,
        ],
{
    reveal_strlit(
        "</string>\n<key>ProgramArguments</key>\n<array>\n    <string>",
    );
    reveal_strlit("/string>\n");
    reveal_strlit("key>ProgramArguments");
    reveal_strlit("/key>\n");
    reveal_strlit("array>\n    ");
    reveal_strlit("string>");
    let t5 = "string>"@;
    lemma_one_piece(t5, '<');
    let t4 = "array>\n    "@ + seq!['<'] + t5;
    lemma_first_piece("array>\n    "@, '<', t5);
    let t3 = "/key>\n"@ + seq!['<'] + t4;
    lemma_first_piece("/key>\n"@, '<', t4);
    let t2 = "key>ProgramArguments"@ + seq!['<'] + t3;
    lemma_first_piece("key>ProgramArguments"@, '<', t3);
    let t1 = "/string>\n"@ + seq!['<'] + t2;
    lemma_first_piece("/string>\n"@, '<', t2);
    let t0 = Seq::<char>::empty() + seq!['<'] + t1;
    lemma_first_piece(Seq::<char>::empty(), '<', t1);
    assert(PLIST_PROGRAM@ =~= t0);
}

/// The pieces of [`PLIST_ARGUMENT`].
proof fn lemma_plist_argument()
    ensures
        pieces(PLIST_ARGUMENT@, '<') == seq![
            Seq::<char>::empty(),
            "/string>\n    "@,
            "string>"@,
        ],
{
    reveal_strlit(
        "</string>\n    <string>",
    );
    reveal_strlit("/string>\n    ");
    reveal_strlit("string>");
    let t2 = "string>"@;
    lemma_one_piece(t2, '<');
    let t1 = "/string>\n    "@ + seq!['<'] + t2;
    lemma_first_piece("/string>\n    "@, '<', t2);
    let t0 = Seq::<char>::empty() + seq!['<'] + t1;
    lemma_first_piece(Seq::<char>::empty(), '<', t1);
    assert(PLIST_ARGUMENT@ =~= t0);
}

/// The pieces of [`PLIST_ENVIRONMENT`].
proof fn lemma_plist_environment()
    ensures
        pieces(PLIST_ENVIRONMENT@, '<') == seq![
            Seq::<char>::empty(),
            "/string>\n"@,
            "/array>\n"@,
            "key>EnvironmentVariables"@,
            "/key>\n"@,
            "dict>\n    "@,
            "key>PATH"@,
            "/key>\n    "@,
            "string>/usr/local/bin:/opt/homebrew/bin:/usr/bin:/bin"@,
            "/string>\n"@,
            "/dict>\n"@,
        ],
{
    reveal_strlit(
        "</string>\n</array>\n<key>EnvironmentVariables</key>\n<dict>\n    <key>PATH</key>\n    <string>/usr/local/bin:/opt/homebrew/bin:/usr/bin:/bin</string>\n</dict>\n",
    );
    reveal_strlit("/string>\n");
    reveal_strlit("/array>\n");
    reveal_strlit("key>EnvironmentVariables");
    reveal_strlit("/key>\n");
    reveal_strlit("dict>\n    ");
    reveal_strlit("key>PATH");
    reveal_strlit("/key>\n    ");
    reveal_strlit("string>/usr/local/bin:/opt/homebrew/bin:/usr/bin:/bin");
    reveal_strlit("/dict>\n");
    let t10 = "/dict>\n"@;
    lemma_one_piece(t10, '<');
    let t9 = "/string>\n"@ + seq!['<'] + t10;
    lemma_first_piece("/string>\n"@, '<', t10);
    let t8 = "string>/usr/local/bin:/opt/homebrew/bin:/usr/bin:/bin"@ + seq!['<'] + t9;
    lemma_first_piece("string>/usr/local/bin:/opt/homebrew/bin:/usr/bin:/bin"@, '<', t9);
    let t7 = "/key>\n    "@ + seq!['<'] + t8;
    lemma_first_piece("/key>\n    "@, '<', t8);
    let t6 = "key>PATH"@ + seq!['<'] + t7;
    lemma_first_piece("key>PATH"@, '<', t7);
    let t5 = "dict>\n    "@ + seq!['<'] + t6;
    lemma_first_piece("dict>\n    "@, '<', t6);
    let t4 = "/key>\n"@ + seq!['<'] + t5;
    lemma_first_piece("/key>\n"@, '<', t5);
    let t3 = "key>EnvironmentVariables"@ + seq!['<'] + t4;
    lemma_first_piece("key>EnvironmentVariables"@, '<', t4);
    let t2 = "/array>\n"@ + seq!['<'] + t3;
    lemma_first_piece("/array>\n"@, '<', t3);
    let t1 = "/string>\n"@ + seq!['<'] + t2;
    lemma_first_piece("/string>\n"@, '<', t2);
    let t0 = Seq::<char>::empty() + seq!['<'] + t1;
    lemma_first_piece(Seq::<char>::empty(), '<', t1);
    assert(PLIST_ENVIRONMENT@ =~= t0);
}

/// The pieces of [`PLIST_STDOUT`].
proof fn lemma_plist_stdout()
    ensures
        pieces(PLIST_STDOUT@, '<') == seq![
            "\n"@,
            "key>RunAtLoad"@,
            "/key>\n"@,
            "false/>\n"@,
            "key>StandardOutPath"@,
            "/key>\n"@,
            "string>"@,
        ],
{
    reveal_strlit(
        "\n<key>RunAtLoad</key>\n<false/>\n<key>StandardOutPath</key>\n<string>",
    );
    reveal_strlit("\n");
    reveal_strlit("key>RunAtLoad");
    reveal_strlit("/key>\n");
    reveal_strlit("false/>\n");
    reveal_strlit("key>StandardOutPath");
    reveal_strlit("string>");
    let t6 = "string>"@;
    lemma_one_piece(t6, '<');
    let t5 = "/key>\n"@ + seq!['<'] + t6;
    lemma_first_piece("/key>\n"@, '<', t6);
    let t4 = "key>StandardOutPath"@ + seq!['<'] + t5;
    lemma_first_piece("key>StandardOutPath"@, '<', t5);
    let t3 = "false/>\n"@ + seq!['<'] + t4;
    lemma_first_piece("false/>\n"@, '<', t4);
    let t2 = "/key>\n"@ + seq!['<'] + t3;
    lemma_first_piece("/key>\n"@, '<', t3);
    let t1 = "key>RunAtLoad"@ + seq!['<'] + t2;
    lemma_first_piece("key>RunAtLoad"@, '<', t2);
    let t0 = "\n"@ + seq!['<'] + t1;
    lemma_first_piece("\n"@, '<', t1);
    assert(PLIST_STDOUT@ =~= t0);
}

/// The pieces of [`PLIST_STDERR`].
proof fn lemma_plist_stderr()
    ensures
        pieces(PLIST_STDERR@, '<') == seq![
            Seq::<char>::empty(),
            "/string>\n"@,
            "key>StandardErrorPath"@,
            "/key>\n"@,
            "string>"@,
        ],
{
    reveal_strlit(
        "</string>\n<key>StandardErrorPath</key>\n<string>",
    );
    reveal_strlit("/string>\n");
    reveal_strlit("key>StandardErrorPath");
    reveal_strlit("/key>\n");
    reveal_strlit("string>");
    let t4 = "string>"@;
    lemma_one_piece(t4, '<');
    let t3 = "/key>\n"@ + seq!['<'] + t4;
    lemma_first_piece("/key>\n"@, '<', t4);
    let t2 = "key>StandardErrorPath"@ + seq!['<'] + t3;
    lemma_first_piece("key>StandardErrorPath"@, '<', t3);
    let t1 = "/string>\n"@ + seq!['<'] + t2;
    lemma_first_piece("/string>\n"@, '<', t2);
    let t0 = Seq::<char>::empty() + seq!['<'] + t1;
    lemma_first_piece(Seq::<char>::empty(), '<', t1);
    assert(PLIST_STDERR@ =~= t0);
}

/// The pieces of [`PLIST_TAIL`].
proof fn lemma_plist_tail()
    ensures
        pieces(PLIST_TAIL@, '<') == seq![
            Seq::<char>::empty(),
            "/string>\n"@,
            "key>ProcessType"@,
            "/key>\n"@,
            "string>Background"@,
            "/string>\n"@,
            "key>LowPriorityIO"@,
            "/key>\n"@,
            "true/>\n"@,
            "/dict>\n"@,
            "/plist>\n"@,
        ],
{
    reveal_strlit(
        "</string>\n<key>ProcessType</key>\n<string>Background</string>\n<key>LowPriorityIO</key>\n<true/>\n</dict>\n</plist>\n",
    );
    reveal_strlit("/string>\n");
    reveal_strlit("key>ProcessType");
    reveal_strlit("/key>\n");
    reveal_strlit("string>Background");
    reveal_strlit("key>LowPriorityIO");
    reveal_strlit("true/>\n");
    reveal_strlit("/dict>\n");
    reveal_strlit("/plist>\n");
    let t10 = "/plist>\n"@;
    lemma_one_piece(t10, '<');
    let t9 = "/dict>\n"@ + seq!['<'] + t10;
    lemma_first_piece("/dict>\n"@, '<', t10);
    let t8 = "true/>\n"@ + seq!['<'] + t9;
    lemma_first_piece("true/>\n"@, '<', t9);
    let t7 = "/key>\n"@ + seq!['<'] + t8;
    lemma_first_piece("/key>\n"@, '<', t8);
    let t6 = "key>LowPriorityIO"@ + seq!['<'] + t7;
    lemma_first_piece("key>LowPriorityIO"@, '<', t7);
    let t5 = "/string>\n"@ + seq!['<'] + t6;
    lemma_first_piece("/string>\n"@, '<', t6);
    let t4 = "string>Background"@ + seq!['<'] + t5;
    lemma_first_piece("string>Background"@, '<', t5);
    let t3 = "/key>\n"@ + seq!['<'] + t4;
    lemma_first_piece("/key>\n"@, '<', t4);
    let t2 = "key>ProcessType"@ + seq!['<'] + t3;
    lemma_first_piece("key>ProcessType"@, '<', t3);
    let t1 = "/string>\n"@ + seq!['<'] + t2;
    lemma_first_piece("/string>\n"@, '<', t2);
    let t0 = Seq::<char>::empty() + seq!['<'] + t1;
    lemma_first_piece(Seq::<char>::empty(), '<', t1);
    assert(PLIST_TAIL@ =~= t0);
}

/// The pieces of a document before its schedule.
spec fn front_pieces(label: Seq<char>, exe: Seq<char>, name: Seq<char>) -> Seq<Seq<char>> {
    seq![
        Seq::<char>::empty(),
        "?xml version=\"1.0\" encoding=\"UTF-8\"?>\n"@,
        "!DOCTYPE plist PUBLIC \"-//Apple//DTD PLIST 1.0//EN\" \"http://www.apple.com/DTDs/PropertyList-1.0.dtd\">\n"@,
        "plist version=\"1.0\">\n"@,
        "dict>\n"@,
        "key>Label"@,
        "/key>\n"@,
        "string>"@ + xml_escaped(label),
        "/string>\n"@,
        "key>ProgramArguments"@,
        "/key>\n"@,
        "array>\n    "@,
        "string>"@ + xml_escaped(exe),
        "/string>\n    "@,
        "string>"@ + xml_escaped(name),
        "/string>\n"@,
        "/array>\n"@,
        "key>EnvironmentVariables"@,
        "/key>\n"@,
        "dict>\n    "@,
        "key>PATH"@,
        "/key>\n    "@,
        "string>/usr/local/bin:/opt/homebrew/bin:/usr/bin:/bin"@,
        "/string>\n"@,
    ]
}

/// The pieces of a document behind its schedule.
spec fn back_pieces(out_log: Seq<char>, err_log: Seq<char>) -> Seq<Seq<char>> {
    seq![
        "key>RunAtLoad"@,
        "/key>\n"@,
        "false/>\n"@,
        "key>StandardOutPath"@,
        "/key>\n"@,
        "string>"@ + xml_escaped(out_log),
        "/string>\n"@,
        "key>StandardErrorPath"@,
        "/key>\n"@,
        "string>"@ + xml_escaped(err_log),
        "/string>\n"@,
        "key>ProcessType"@,
        "/key>\n"@,
        "string>Background"@,
        "/string>\n"@,
        "key>LowPriorityIO"@,
        "/key>\n"@,
        "true/>\n"@,
        "/dict>\n"@,
        "/plist>\n"@,
    ]
}

/// The schedule between the closing tag before it and the line end behind it.
spec fn middle(schedule: Seq<char>) -> Seq<char> {
    "/dict>\n"@ + schedule + "\n"@
}

/// The pieces of two texts, where the first piece of the second is empty.
proof fn lemma_put_together(
    a: Seq<char>,
    pa: Seq<Seq<char>>,
    b: Seq<char>,
    pb: Seq<Seq<char>>,
)
    requires
        pieces(a, '<') == pa,
        pieces(b, '<') == pb,
        pb[0] == Seq::<char>::empty(),
    ensures
        pieces(a + b, '<') == pa + pb.skip(1),
{
    lemma_pieces_of_both(a, b, '<');
    assert(pa.last() + Seq::<char>::empty() =~= pa.last());
    assert(pieces(a + b, '<') =~= pa + pb.skip(1));
}

/// The pieces of a text with an escaped value behind it.
proof fn lemma_put_value(a: Seq<char>, pa: Seq<Seq<char>>, value: Seq<char>)
    requires
        pieces(a, '<') == pa,
    ensures
        pieces(a + xml_escaped(value), '<') == pa.drop_last().push(pa.last() + xml_escaped(value)),
{
    lemma_escaped_is_one_piece(value);
    lemma_pieces_of_both(a, xml_escaped(value), '<');
    assert(pieces(a + xml_escaped(value), '<') =~= pa.drop_last().push(
        pa.last() + xml_escaped(value),
    ));
}

/// The part of a document up to the angle bracket before the schedule.
spec fn front_text(label: Seq<char>, exe: Seq<char>, name: Seq<char>) -> Seq<char> {
    PLIST_HEAD@ + xml_escaped(label) + PLIST_PROGRAM@ + xml_escaped(exe) + PLIST_ARGUMENT@
        + xml_escaped(name) + PLIST_ENVIRONMENT@
}

/// The part of a document behind the schedule.
spec fn back_text(out_log: Seq<char>, err_log: Seq<char>) -> Seq<char> {
    PLIST_STDOUT@ + xml_escaped(out_log) + PLIST_STDERR@ + xml_escaped(err_log) + PLIST_TAIL@
}

/// The pieces before the schedule.
proof fn lemma_front(label: Seq<char>, exe: Seq<char>, name: Seq<char>)
    ensures
        pieces(front_text(label, exe, name), '<') == front_pieces(label, exe, name).push(
            "/dict>\n"@,
        ),
{
    lemma_plist_head();
    lemma_plist_program();
    lemma_plist_argument();
    lemma_plist_environment();
    let a = PLIST_HEAD@;
    let b = a + xml_escaped(label);
    let c = b + PLIST_PROGRAM@;
    let d = c + xml_escaped(exe);
    let e = d + PLIST_ARGUMENT@;
    let f = e + xml_escaped(name);
    lemma_put_value(a, pieces(a, '<'), label);
    lemma_put_together(b, pieces(b, '<'), PLIST_PROGRAM@, pieces(PLIST_PROGRAM@, '<'));
    lemma_put_value(c, pieces(c, '<'), exe);
    lemma_put_together(d, pieces(d, '<'), PLIST_ARGUMENT@, pieces(PLIST_ARGUMENT@, '<'));
    lemma_put_value(e, pieces(e, '<'), name);
    lemma_put_together(f, pieces(f, '<'), PLIST_ENVIRONMENT@, pieces(PLIST_ENVIRONMENT@, '<'));
    assert(pieces(front_text(label, exe, name), '<') =~= front_pieces(label, exe, name).push(
        "/dict>\n"@,
    ));
}

/// The pieces behind the schedule.
proof fn lemma_back(out_log: Seq<char>, err_log: Seq<char>)
    ensures
        pieces(back_text(out_log, err_log), '<') == seq!["\n"@] + back_pieces(out_log, err_log),
{
    lemma_plist_stdout();
    lemma_plist_stderr();
    lemma_plist_tail();
    let a = PLIST_STDOUT@;
    let b = a + xml_escaped(out_log);
    let c = b + PLIST_STDERR@;
    let d = c + xml_escaped(err_log);
    lemma_put_value(a, pieces(a, '<'), out_log);
    lemma_put_together(b, pieces(b, '<'), PLIST_STDERR@, pieces(PLIST_STDERR@, '<'));
    lemma_put_value(c, pieces(c, '<'), err_log);
    lemma_put_together(d, pieces(d, '<'), PLIST_TAIL@, pieces(PLIST_TAIL@, '<'));
    assert(pieces(back_text(out_log, err_log), '<') =~= seq!["\n"@] + back_pieces(
        out_log,
        err_log,
    ));
}

/// The pieces of a document.
#[verifier::rlimit(40)]
proof fn lemma_document(
    label: Seq<char>,
    exe: Seq<char>,
    name: Seq<char>,
    schedule: Seq<char>,
    log_dir: Seq<char>,
)
    ensures
        pieces(plist_text(label, exe, name, schedule, log_dir), '<') == front_pieces(
            label,
            exe,
            name,
        ) + pieces(middle(schedule), '<') + back_pieces(
            joined(log_dir, name + ".stdout.log"@),
            joined(log_dir, name + ".stderr.log"@),
        ),
{
    let out_log = joined(log_dir, name + ".stdout.log"@);
    let err_log = joined(log_dir, name + ".stderr.log"@);
    let doc = plist_text(label, exe, name, schedule, log_dir);
    let front = front_text(label, exe, name);
    let back = back_text(out_log, err_log);
    let fp = front_pieces(label, exe, name);
    let bp = back_pieces(out_log, err_log);
    let sp = pieces(schedule, '<');
    lemma_front(label, exe, name);
    lemma_back(out_log, err_log);
    assert(doc =~= front + schedule + back);
    lemma_pieces_of_both(front, schedule, '<');
    lemma_pieces_of_both(front + schedule, back, '<');
    reveal_strlit("/dict>\n");
    reveal_strlit("\n");
    lemma_one_piece("/dict>\n"@, '<');
    lemma_one_piece("\n"@, '<');
    lemma_pieces_of_both("/dict>\n"@, schedule, '<');
    lemma_pieces_of_both("/dict>\n"@ + schedule, "\n"@, '<');
    let with_tag = pieces("/dict>\n"@ + schedule, '<');
    assert(with_tag =~= seq!["/dict>\n"@ + sp[0]] + sp.skip(1));
    assert(pieces(front + schedule, '<') =~= fp + with_tag);
    assert(pieces(front + schedule, '<').last() == with_tag.last());
    assert(pieces(middle(schedule), '<') =~= with_tag.drop_last().push(with_tag.last() + "\n"@));
    assert(pieces(doc, '<') =~= fp + pieces(middle(schedule), '<') + bp);
}

/// Keys differ where their names do.
proof fn lemma_same_key(a: Seq<char>, b: Seq<char>)
    ensures
        "key>"@ + a == "key>"@ + b <==> a == b,
{
    let n = "key>"@.len() as int;
    if "key>"@ + a == "key>"@ + b {
        assert(("key>"@ + a).skip(n) =~= a);
        assert(("key>"@ + b).skip(n) =~= b);
    }
}

/// The keys before the schedule.
#[verifier::rlimit(40)]
proof fn lemma_front_keys(label: Seq<char>, exe: Seq<char>, name: Seq<char>, key: Seq<char>)
    ensures
        first_index(front_pieces(label, exe, name), "key>"@ + key) == (if key == "Label"@ {
            5int
        } else if key == "ProgramArguments"@ {
            9int
        } else if key == "EnvironmentVariables"@ {
            17int
        } else if key == "PATH"@ {
            20int
        } else {
            24int
        }),
{
    let ps = front_pieces(label, exe, name);
    let x = "key>"@ + key;
    reveal_strlit("key>");
    reveal_strlit("?xml version=\"1.0\" encoding=\"UTF-8\"?>\n");
    reveal_strlit("!DOCTYPE plist PUBLIC \"-//Apple//DTD PLIST 1.0//EN\" \"http://www.apple.com/DTDs/PropertyList-1.0.dtd\">\n");
    reveal_strlit("plist version=\"1.0\">\n");
    reveal_strlit("dict>\n");
    reveal_strlit("key>Label");
    reveal_strlit("/key>\n");
    reveal_strlit("string>");
    reveal_strlit("/string>\n");
    reveal_strlit("key>ProgramArguments");
    reveal_strlit("array>\n    ");
    reveal_strlit("/string>\n    ");
    reveal_strlit("/array>\n");
    reveal_strlit("key>EnvironmentVariables");
    reveal_strlit("dict>\n    ");
    reveal_strlit("key>PATH");
    reveal_strlit("/key>\n    ");
    reveal_strlit("string>/usr/local/bin:/opt/homebrew/bin:/usr/bin:/bin");
    reveal_strlit("Label");
    reveal_strlit("ProgramArguments");
    reveal_strlit("EnvironmentVariables");
    reveal_strlit("PATH");
    assert("key>Label"@ =~= "key>"@ + "Label"@);
    lemma_same_key("Label"@, key);
    assert("key>ProgramArguments"@ =~= "key>"@ + "ProgramArguments"@);
    lemma_same_key("ProgramArguments"@, key);
    assert("key>EnvironmentVariables"@ =~= "key>"@ + "EnvironmentVariables"@);
    lemma_same_key("EnvironmentVariables"@, key);
    assert("key>PATH"@ =~= "key>"@ + "PATH"@);
    lemma_same_key("PATH"@, key);
    assert(x[0] == 'k');
    assert(ps[0].len() == 0);
    assert(ps[1][0] != 'k');
    assert(ps[2][0] != 'k');
    assert(ps[3][0] != 'k');
    assert(ps[4][0] != 'k');
    assert(ps[6][0] != 'k');
    assert(ps[7][0] != 'k');
    assert(ps[8][0] != 'k');
    assert(ps[10][0] != 'k');
    assert(ps[11][0] != 'k');
    assert(ps[12][0] != 'k');
    assert(ps[13][0] != 'k');
    assert(ps[14][0] != 'k');
    assert(ps[15][0] != 'k');
    assert(ps[16][0] != 'k');
    assert(ps[18][0] != 'k');
    assert(ps[19][0] != 'k');
    assert(ps[21][0] != 'k');
    assert(ps[22][0] != 'k');
    assert(ps[23][0] != 'k');
    if key == "Label"@ {
        lemma_first_index_is(ps, x, 5);
    } else if key == "ProgramArguments"@ {
        lemma_first_index_is(ps, x, 9);
    } else if key == "EnvironmentVariables"@ {
        lemma_first_index_is(ps, x, 17);
    } else if key == "PATH"@ {
        lemma_first_index_is(ps, x, 20);
    } else {
        lemma_first_index_is(ps, x, 24);
    }
}

/// The keys behind the schedule.
#[verifier::rlimit(40)]
proof fn lemma_back_keys(out_log: Seq<char>, err_log: Seq<char>, key: Seq<char>)
    ensures
        first_index(back_pieces(out_log, err_log), "key>"@ + key) == (if key == "RunAtLoad"@ {
            0int
        } else if key == "StandardOutPath"@ {
            3int
        } else if key == "StandardErrorPath"@ {
            7int
        } else if key == "ProcessType"@ {
            11int
        } else if key == "LowPriorityIO"@ {
            15int
        } else {
            20int
        }),
{
    let ps = back_pieces(out_log, err_log);
    let x = "key>"@ + key;
    reveal_strlit("key>");
    reveal_strlit("key>RunAtLoad");
    reveal_strlit("/key>\n");
    reveal_strlit("false/>\n");
    reveal_strlit("key>StandardOutPath");
    reveal_strlit("string>");
    reveal_strlit("/string>\n");
    reveal_strlit("key>StandardErrorPath");
    reveal_strlit("key>ProcessType");
    reveal_strlit("string>Background");
    reveal_strlit("key>LowPriorityIO");
    reveal_strlit("true/>\n");
    reveal_strlit("/dict>\n");
    reveal_strlit("/plist>\n");
    reveal_strlit("RunAtLoad");
    reveal_strlit("StandardOutPath");
    reveal_strlit("StandardErrorPath");
    reveal_strlit("ProcessType");
    reveal_strlit("LowPriorityIO");
    assert("key>RunAtLoad"@ =~= "key>"@ + "RunAtLoad"@);
    lemma_same_key("RunAtLoad"@, key);
    assert("key>StandardOutPath"@ =~= "key>"@ + "StandardOutPath"@);
    lemma_same_key("StandardOutPath"@, key);
    assert("key>StandardErrorPath"@ =~= "key>"@ + "StandardErrorPath"@);
    lemma_same_key("StandardErrorPath"@, key);
    assert("key>ProcessType"@ =~= "key>"@ + "ProcessType"@);
    lemma_same_key("ProcessType"@, key);
    assert("key>LowPriorityIO"@ =~= "key>"@ + "LowPriorityIO"@);
    lemma_same_key("LowPriorityIO"@, key);
    assert(x[0] == 'k');
    assert(ps[1][0] != 'k');
    assert(ps[2][0] != 'k');
    assert(ps[4][0] != 'k');
    assert(ps[5][0] != 'k');
    assert(ps[6][0] != 'k');
    assert(ps[8][0] != 'k');
    assert(ps[9][0] != 'k');
    assert(ps[10][0] != 'k');
    assert(ps[12][0] != 'k');
    assert(ps[13][0] != 'k');
    assert(ps[14][0] != 'k');
    assert(ps[16][0] != 'k');
    assert(ps[17][0] != 'k');
    assert(ps[18][0] != 'k');
    assert(ps[19][0] != 'k');
    if key == "RunAtLoad"@ {
        lemma_first_index_is(ps, x, 0);
    } else if key == "StandardOutPath"@ {
        lemma_first_index_is(ps, x, 3);
    } else if key == "StandardErrorPath"@ {
        lemma_first_index_is(ps, x, 7);
    } else if key == "ProcessType"@ {
        lemma_first_index_is(ps, x, 11);
    } else if key == "LowPriorityIO"@ {
        lemma_first_index_is(ps, x, 15);
    } else {
        lemma_first_index_is(ps, x, 20);
    }
}

/// The pieces of an interval.
#[verifier::rlimit(40)]
proof fn lemma_interval_pieces(seconds: nat)
    ensures
        pieces(middle(interval_text(seconds)), '<') == seq![
            "/dict>\n    "@,
            "key>StartInterval"@,
            "/key>\n    "@,
            "integer>"@ + decimal(seconds),
            "/integer>\n"@,
        ],
{
    reveal_strlit("/dict>\n");
    reveal_strlit("\n");
    reveal_strlit("    <key>StartInterval</key>\n    <integer>");
    reveal_strlit("</integer>");
    reveal_strlit("/dict>\n    ");
    reveal_strlit("key>StartInterval");
    reveal_strlit("/key>\n    ");
    reveal_strlit("integer>");
    reveal_strlit("/integer>\n");
    law_decimal_reads_back(seconds);
    let p0 = "/dict>\n    "@;
    assert(!p0.contains('<'));
    let p1 = "key>StartInterval"@;
    assert(!p1.contains('<'));
    let p2 = "/key>\n    "@;
    assert(!p2.contains('<'));
    let p3 = "integer>"@ + decimal(seconds);
    assert(!p3.contains('<'));
    let p4 = "/integer>\n"@;
    assert(!p4.contains('<'));
    let t4 = p4;
    lemma_one_piece(t4, '<');
    let t3 = p3 + seq!['<'] + t4;
    lemma_first_piece(p3, '<', t4);
    let t2 = p2 + seq!['<'] + t3;
    lemma_first_piece(p2, '<', t3);
    let t1 = p1 + seq!['<'] + t2;
    lemma_first_piece(p1, '<', t2);
    let t0 = p0 + seq!['<'] + t1;
    lemma_first_piece(p0, '<', t1);
    assert(middle(interval_text(seconds)) =~= t0);
}

/// The pieces that a calendar schedule starts with.
proof fn lemma_calendar_start()
    ensures
        pieces("    <key>StartCalendarInterval</key>\n    <dict>\n"@, '<') == seq![
            "    "@,
            "key>StartCalendarInterval"@,
            "/key>\n    "@,
            "dict>\n"@,
        ],
{
    reveal_strlit(
        "    <key>StartCalendarInterval</key>\n    <dict>\n",
    );
    reveal_strlit("    ");
    reveal_strlit("key>StartCalendarInterval");
    reveal_strlit("/key>\n    ");
    reveal_strlit("dict>\n");
    let t3 = "dict>\n"@;
    lemma_one_piece(t3, '<');
    let t2 = "/key>\n    "@ + seq!['<'] + t3;
    lemma_first_piece("/key>\n    "@, '<', t3);
    let t1 = "key>StartCalendarInterval"@ + seq!['<'] + t2;
    lemma_first_piece("key>StartCalendarInterval"@, '<', t2);
    let t0 = "    "@ + seq!['<'] + t1;
    lemma_first_piece("    "@, '<', t1);
    assert("    <key>StartCalendarInterval</key>\n    <dict>\n"@ =~= t0);
}

/// The pieces before the number of a weekday.
proof fn lemma_weekday_start()
    ensures
        pieces("        <key>Weekday</key>\n        <integer>"@, '<') == seq![
            "        "@,
            "key>Weekday"@,
            "/key>\n        "@,
            "integer>"@,
        ],
{
    reveal_strlit(
        "        <key>Weekday</key>\n        <integer>",
    );
    reveal_strlit("        ");
    reveal_strlit("key>Weekday");
    reveal_strlit("/key>\n        ");
    reveal_strlit("integer>");
    let t3 = "integer>"@;
    lemma_one_piece(t3, '<');
    let t2 = "/key>\n        "@ + seq!['<'] + t3;
    lemma_first_piece("/key>\n        "@, '<', t3);
    let t1 = "key>Weekday"@ + seq!['<'] + t2;
    lemma_first_piece("key>Weekday"@, '<', t2);
    let t0 = "        "@ + seq!['<'] + t1;
    lemma_first_piece("        "@, '<', t1);
    assert("        <key>Weekday</key>\n        <integer>"@ =~= t0);
}

/// The pieces behind the number of a weekday.
proof fn lemma_weekday_end()
    ensures
        pieces("</integer>\n"@, '<') == seq![
            Seq::<char>::empty(),
            "/integer>\n"@,
        ],
{
    reveal_strlit(
        "</integer>\n",
    );
    reveal_strlit("/integer>\n");
    let t1 = "/integer>\n"@;
    lemma_one_piece(t1, '<');
    let t0 = Seq::<char>::empty() + seq!['<'] + t1;
    lemma_first_piece(Seq::<char>::empty(), '<', t1);
    assert("</integer>\n"@ =~= t0);
}

/// The pieces before the hour.
proof fn lemma_hour_start()
    ensures
        pieces("        <key>Hour</key>\n        <integer>"@, '<') == seq![
            "        "@,
            "key>Hour"@,
            "/key>\n        "@,
            "integer>"@,
        ],
{
    reveal_strlit(
        "        <key>Hour</key>\n        <integer>",
    );
    reveal_strlit("        ");
    reveal_strlit("key>Hour");
    reveal_strlit("/key>\n        ");
    reveal_strlit("integer>");
    let t3 = "integer>"@;
    lemma_one_piece(t3, '<');
    let t2 = "/key>\n        "@ + seq!['<'] + t3;
    lemma_first_piece("/key>\n        "@, '<', t3);
    let t1 = "key>Hour"@ + seq!['<'] + t2;
    lemma_first_piece("key>Hour"@, '<', t2);
    let t0 = "        "@ + seq!['<'] + t1;
    lemma_first_piece("        "@, '<', t1);
    assert("        <key>Hour</key>\n        <integer>"@ =~= t0);
}

/// The pieces between the hour and the minute.
proof fn lemma_minute_start()
    ensures
        pieces("</integer>\n        <key>Minute</key>\n        <integer>"@, '<') == seq![
            Seq::<char>::empty(),
            "/integer>\n        "@,
            "key>Minute"@,
            "/key>\n        "@,
            "integer>"@,
        ],
{
    reveal_strlit(
        "</integer>\n        <key>Minute</key>\n        <integer>",
    );
    reveal_strlit("/integer>\n        ");
    reveal_strlit("key>Minute");
    reveal_strlit("/key>\n        ");
    reveal_strlit("integer>");
    let t4 = "integer>"@;
    lemma_one_piece(t4, '<');
    let t3 = "/key>\n        "@ + seq!['<'] + t4;
    lemma_first_piece("/key>\n        "@, '<', t4);
    let t2 = "key>Minute"@ + seq!['<'] + t3;
    lemma_first_piece("key>Minute"@, '<', t3);
    let t1 = "/integer>\n        "@ + seq!['<'] + t2;
    lemma_first_piece("/integer>\n        "@, '<', t2);
    let t0 = Seq::<char>::empty() + seq!['<'] + t1;
    lemma_first_piece(Seq::<char>::empty(), '<', t1);
    assert("</integer>\n        <key>Minute</key>\n        <integer>"@ =~= t0);
}

/// The pieces behind the minute.
proof fn lemma_calendar_end()
    ensures
        pieces("</integer>\n    </dict>"@, '<') == seq![
            Seq::<char>::empty(),
            "/integer>\n    "@,
            "/dict>"@,
        ],
{
    reveal_strlit(
        "</integer>\n    </dict>",
    );
    reveal_strlit("/integer>\n    ");
    reveal_strlit("/dict>");
    let t2 = "/dict>"@;
    lemma_one_piece(t2, '<');
    let t1 = "/integer>\n    "@ + seq!['<'] + t2;
    lemma_first_piece("/integer>\n    "@, '<', t2);
    let t0 = Seq::<char>::empty() + seq!['<'] + t1;
    lemma_first_piece(Seq::<char>::empty(), '<', t1);
    assert("</integer>\n    </dict>"@ =~= t0);
}

/// The pieces of a text with a number behind it.
proof fn lemma_put_number(a: Seq<char>, pa: Seq<Seq<char>>, n: nat)
    requires
        pieces(a, '<') == pa,
    ensures
        pieces(a + decimal(n), '<') == pa.drop_last().push(pa.last() + decimal(n)),
{
    law_decimal_reads_back(n);
    assert(!decimal(n).contains('<'));
    lemma_one_piece(decimal(n), '<');
    lemma_pieces_of_both(a, decimal(n), '<');
    assert(pieces(a + decimal(n), '<') =~= pa.drop_last().push(pa.last() + decimal(n)));
}

/// The part of a calendar schedule from the hour on.
spec fn time_text(hour: nat, minute: nat) -> Seq<char> {
    "        <key>Hour</key>\n        <integer>"@ + decimal(hour)
        + "</integer>\n        <key>Minute</key>\n        <integer>"@ + decimal(minute)
        + "</integer>\n    </dict>"@
}

/// The pieces of a time of day.
proof fn lemma_time_pieces(hour: nat, minute: nat)
    ensures
        pieces(time_text(hour, minute), '<') == seq![
            "        "@,
            "key>Hour"@,
            "/key>\n        "@,
            "integer>"@ + decimal(hour),
            "/integer>\n        "@,
            "key>Minute"@,
            "/key>\n        "@,
            "integer>"@ + decimal(minute),
            "/integer>\n    "@,
            "/dict>"@,
        ],
{
    lemma_hour_start();
    lemma_minute_start();
    lemma_calendar_end();
    let a = "        <key>Hour</key>\n        <integer>"@;
    let b = a + decimal(hour);
    let between = "</integer>\n        <key>Minute</key>\n        <integer>"@;
    let c = b + between;
    let d = c + decimal(minute);
    let end = "</integer>\n    </dict>"@;
    lemma_put_number(a, pieces(a, '<'), hour);
    lemma_put_together(b, pieces(b, '<'), between, pieces(between, '<'));
    lemma_put_number(c, pieces(c, '<'), minute);
    lemma_put_together(d, pieces(d, '<'), end, pieces(end, '<'));
    assert(pieces(time_text(hour, minute), '<') =~= seq![
        "        "@,
        "key>Hour"@,
        "/key>\n        "@,
        "integer>"@ + decimal(hour),
        "/integer>\n        "@,
        "key>Minute"@,
        "/key>\n        "@,
        "integer>"@ + decimal(minute),
        "/integer>\n    "@,
        "/dict>"@,
    ]);
}

/// The pieces of a weekday.
proof fn lemma_weekday_pieces(day: u8)
    ensures
        pieces(weekday_text(Some(day)), '<') == seq![
            "        "@,
            "key>Weekday"@,
            "/key>\n        "@,
            "integer>"@ + decimal(day as nat),
            "/integer>\n"@,
        ],
{
    lemma_weekday_start();
    lemma_weekday_end();
    let a = "        <key>Weekday</key>\n        <integer>"@;
    let b = a + decimal(day as nat);
    let end = "</integer>\n"@;
    lemma_put_number(a, pieces(a, '<'), day as nat);
    lemma_put_together(b, pieces(b, '<'), end, pieces(end, '<'));
    assert(pieces(weekday_text(Some(day)), '<') =~= seq![
        "        "@,
        "key>Weekday"@,
        "/key>\n        "@,
        "integer>"@ + decimal(day as nat),
        "/integer>\n"@,
    ]);
}

/// The pieces of a schedule by the time of day.
#[verifier::rlimit(40)]
proof fn lemma_daily_pieces(hour: nat, minute: nat)
    ensures
        pieces(middle(calendar_text(None, hour, minute)), '<') == seq![
            "/dict>\n    "@,
            "key>StartCalendarInterval"@,
            "/key>\n    "@,
            "dict>\n        "@,
            "key>Hour"@,
            "/key>\n        "@,
            "integer>"@ + decimal(hour),
            "/integer>\n        "@,
            "key>Minute"@,
            "/key>\n        "@,
            "integer>"@ + decimal(minute),
            "/integer>\n    "@,
            "/dict>\n"@,
        ],
{
    let schedule = calendar_text(None, hour, minute);
    let tag = "/dict>\n"@;
    let start = "    <key>StartCalendarInterval</key>\n    <dict>\n"@;
    let week = weekday_text(None);
    let time = time_text(hour, minute);
    let end = "\n"@;
    lemma_calendar_start();
    lemma_time_pieces(hour, minute);
    assert(schedule =~= start + week + time);
    reveal_strlit("/dict>\n");
    reveal_strlit("\n");
    lemma_one_piece(tag, '<');
    lemma_one_piece(end, '<');
    lemma_pieces_of_both(tag, start, '<');
    lemma_pieces_of_both(tag + start, time, '<');
    lemma_pieces_of_both(tag + start + time, end, '<');
    assert(middle(schedule) =~= tag + start + time + end);
    reveal_strlit("    ");
    reveal_strlit("        ");
    reveal_strlit("/dict>\n    ");
    reveal_strlit("dict>\n");
    reveal_strlit("dict>\n        ");
    reveal_strlit("/dict>");
    assert("/dict>\n"@ + "    "@ =~= "/dict>\n    "@);
    assert("dict>\n"@ + "        "@ =~= "dict>\n        "@);
    assert("/dict>"@ + "\n"@ =~= "/dict>\n"@);
    assert(pieces(middle(schedule), '<') =~= seq![
        "/dict>\n    "@,
        "key>StartCalendarInterval"@,
        "/key>\n    "@,
        "dict>\n        "@,
        "key>Hour"@,
        "/key>\n        "@,
        "integer>"@ + decimal(hour),
        "/integer>\n        "@,
        "key>Minute"@,
        "/key>\n        "@,
        "integer>"@ + decimal(minute),
        "/integer>\n    "@,
        "/dict>\n"@,
    ]);
}

/// The pieces of a schedule by weekday and time of day.
#[verifier::rlimit(40)]
proof fn lemma_weekly_pieces(day: u8, hour: nat, minute: nat)
    ensures
        pieces(middle(calendar_text(Some(day), hour, minute)), '<') == seq![
            "/dict>\n    "@,
            "key>StartCalendarInterval"@,
            "/key>\n    "@,
            "dict>\n        "@,
            "key>Weekday"@,
            "/key>\n        "@,
            "integer>"@ + decimal(day as nat),
            "/integer>\n        "@,
            "key>Hour"@,
            "/key>\n        "@,
            "integer>"@ + decimal(hour),
            "/integer>\n        "@,
            "key>Minute"@,
            "/key>\n        "@,
            "integer>"@ + decimal(minute),
            "/integer>\n    "@,
            "/dict>\n"@,
        ],
{
    let schedule = calendar_text(Some(day), hour, minute);
    let tag = "/dict>\n"@;
    let start = "    <key>StartCalendarInterval</key>\n    <dict>\n"@;
    let week = weekday_text(Some(day));
    let time = time_text(hour, minute);
    let end = "\n"@;
    lemma_calendar_start();
    lemma_time_pieces(hour, minute);
    assert(schedule =~= start + week + time);
    reveal_strlit("/dict>\n");
    reveal_strlit("\n");
    lemma_one_piece(tag, '<');
    lemma_one_piece(end, '<');
    lemma_weekday_pieces(day);
    lemma_pieces_of_both(tag, start, '<');
    lemma_pieces_of_both(tag + start, week, '<');
    lemma_pieces_of_both(tag + start + week, time, '<');
    lemma_pieces_of_both(tag + start + week + time, end, '<');
    assert(middle(schedule) =~= tag + start + week + time + end);
    reveal_strlit("    ");
    reveal_strlit("        ");
    reveal_strlit("/dict>\n    ");
    reveal_strlit("dict>\n");
    reveal_strlit("dict>\n        ");
    reveal_strlit("/dict>");
    reveal_strlit("/integer>\n");
    reveal_strlit("/integer>\n        ");
    assert("/dict>\n"@ + "    "@ =~= "/dict>\n    "@);
    assert("dict>\n"@ + "        "@ =~= "dict>\n        "@);
    assert("/dict>"@ + "\n"@ =~= "/dict>\n"@);
    assert("/integer>\n"@ + "        "@ =~= "/integer>\n        "@);
    assert(pieces(middle(schedule), '<') =~= seq![
        "/dict>\n    "@,
        "key>StartCalendarInterval"@,
        "/key>\n    "@,
        "dict>\n        "@,
        "key>Weekday"@,
        "/key>\n        "@,
        "integer>"@ + decimal(day as nat),
        "/integer>\n        "@,
        "key>Hour"@,
        "/key>\n        "@,
        "integer>"@ + decimal(hour),
        "/integer>\n        "@,
        "key>Minute"@,
        "/key>\n        "@,
        "integer>"@ + decimal(minute),
        "/integer>\n    "@,
        "/dict>\n"@,
    ]);
}

/// The keys of an interval.
proof fn lemma_interval_keys(seconds: nat, key: Seq<char>)
    ensures
        first_index(pieces(middle(interval_text(seconds)), '<'), "key>"@ + key) == (if key
            == "StartInterval"@ {
            1int
        } else {
            5int
        }),
{
    let ps = pieces(middle(interval_text(seconds)), '<');
    let x = "key>"@ + key;
    lemma_interval_pieces(seconds);
    reveal_strlit("key>");
    reveal_strlit("/dict>\n    ");
    reveal_strlit("key>StartInterval");
    reveal_strlit("/key>\n    ");
    reveal_strlit("integer>");
    reveal_strlit("/integer>\n");
    reveal_strlit("StartInterval");
    assert("key>StartInterval"@ =~= "key>"@ + "StartInterval"@);
    lemma_same_key("StartInterval"@, key);
    assert(x[0] == 'k');
    assert(ps[0][0] != 'k');
    assert(ps[2][0] != 'k');
    assert(ps[3][0] != 'k');
    assert(ps[4][0] != 'k');
    if key == "StartInterval"@ {
        lemma_first_index_is(ps, x, 1);
    } else {
        lemma_first_index_is(ps, x, 5);
    }
}

/// The keys of a time of day.
#[verifier::rlimit(40)]
proof fn lemma_daily_keys(hour: nat, minute: nat, key: Seq<char>)
    ensures
        first_index(pieces(middle(calendar_text(None, hour, minute)), '<'), "key>"@ + key) == (if key
            == "StartCalendarInterval"@ {
            1int
        } else if key == "Hour"@ {
            4int
        } else if key == "Minute"@ {
            8int
        } else {
            13int
        }),
{
    let ps = pieces(middle(calendar_text(None, hour, minute)), '<');
    let x = "key>"@ + key;
    lemma_daily_pieces(hour, minute);
    reveal_strlit("key>");
    reveal_strlit("/dict>\n    ");
    reveal_strlit("key>StartCalendarInterval");
    reveal_strlit("/key>\n    ");
    reveal_strlit("dict>\n        ");
    reveal_strlit("key>Hour");
    reveal_strlit("/key>\n        ");
    reveal_strlit("integer>");
    reveal_strlit("/integer>\n        ");
    reveal_strlit("key>Minute");
    reveal_strlit("/integer>\n    ");
    reveal_strlit("/dict>\n");
    reveal_strlit("StartCalendarInterval");
    reveal_strlit("Hour");
    reveal_strlit("Minute");
    assert("key>StartCalendarInterval"@ =~= "key>"@ + "StartCalendarInterval"@);
    lemma_same_key("StartCalendarInterval"@, key);
    assert("key>Hour"@ =~= "key>"@ + "Hour"@);
    lemma_same_key("Hour"@, key);
    assert("key>Minute"@ =~= "key>"@ + "Minute"@);
    lemma_same_key("Minute"@, key);
    assert(x[0] == 'k');
    assert(ps[0][0] != 'k');
    assert(ps[2][0] != 'k');
    assert(ps[3][0] != 'k');
    assert(ps[5][0] != 'k');
    assert(ps[6][0] != 'k');
    assert(ps[7][0] != 'k');
    assert(ps[9][0] != 'k');
    assert(ps[10][0] != 'k');
    assert(ps[11][0] != 'k');
    assert(ps[12][0] != 'k');
    if key == "StartCalendarInterval"@ {
        lemma_first_index_is(ps, x, 1);
    } else if key == "Hour"@ {
        lemma_first_index_is(ps, x, 4);
    } else if key == "Minute"@ {
        lemma_first_index_is(ps, x, 8);
    } else {
        lemma_first_index_is(ps, x, 13);
    }
}

/// The keys of a time of day on a weekday.
#[verifier::rlimit(40)]
proof fn lemma_weekly_keys(day: u8, hour: nat, minute: nat, key: Seq<char>)
    ensures
        first_index(pieces(middle(calendar_text(Some(day), hour, minute)), '<'), "key>"@ + key) == (if key
            == "StartCalendarInterval"@ {
            1int
        } else if key == "Weekday"@ {
            4int
        } else if key == "Hour"@ {
            8int
        } else if key == "Minute"@ {
            12int
        } else {
            17int
        }),
{
    let ps = pieces(middle(calendar_text(Some(day), hour, minute)), '<');
    let x = "key>"@ + key;
    lemma_weekly_pieces(day, hour, minute);
    reveal_strlit("key>");
    reveal_strlit("/dict>\n    ");
    reveal_strlit("key>StartCalendarInterval");
    reveal_strlit("/key>\n    ");
    reveal_strlit("dict>\n        ");
    reveal_strlit("key>Weekday");
    reveal_strlit("/key>\n        ");
    reveal_strlit("integer>");
    reveal_strlit("/integer>\n        ");
    reveal_strlit("key>Hour");
    reveal_strlit("key>Minute");
    reveal_strlit("/integer>\n    ");
    reveal_strlit("/dict>\n");
    reveal_strlit("StartCalendarInterval");
    reveal_strlit("Weekday");
    reveal_strlit("Hour");
    reveal_strlit("Minute");
    assert("key>StartCalendarInterval"@ =~= "key>"@ + "StartCalendarInterval"@);
    lemma_same_key("StartCalendarInterval"@, key);
    assert("key>Weekday"@ =~= "key>"@ + "Weekday"@);
    lemma_same_key("Weekday"@, key);
    assert("key>Hour"@ =~= "key>"@ + "Hour"@);
    lemma_same_key("Hour"@, key);
    assert("key>Minute"@ =~= "key>"@ + "Minute"@);
    lemma_same_key("Minute"@, key);
    assert(x[0] == 'k');
    assert(ps[0][0] != 'k');
    assert(ps[2][0] != 'k');
    assert(ps[3][0] != 'k');
    assert(ps[5][0] != 'k');
    assert(ps[6][0] != 'k');
    assert(ps[7][0] != 'k');
    assert(ps[9][0] != 'k');
    assert(ps[10][0] != 'k');
    assert(ps[11][0] != 'k');
    assert(ps[13][0] != 'k');
    assert(ps[14][0] != 'k');
    assert(ps[15][0] != 'k');
    assert(ps[16][0] != 'k');
    if key == "StartCalendarInterval"@ {
        lemma_first_index_is(ps, x, 1);
    } else if key == "Weekday"@ {
        lemma_first_index_is(ps, x, 4);
    } else if key == "Hour"@ {
        lemma_first_index_is(ps, x, 8);
    } else if key == "Minute"@ {
        lemma_first_index_is(ps, x, 12);
    } else {
        lemma_first_index_is(ps, x, 17);
    }
}

/// What tells the names of the keys apart: their lengths, or how they start.
proof fn lemma_key_names()
    ensures
        "Label"@.len() == 5,
        "ProgramArguments"@.len() == 16,
        "EnvironmentVariables"@.len() == 20,
        "PATH"@.len() == 4,
        "RunAtLoad"@.len() == 9,
        "StandardOutPath"@.len() == 15,
        "StandardErrorPath"@.len() == 17,
        "ProcessType"@.len() == 11,
        "LowPriorityIO"@.len() == 13,
        "StartInterval"@.len() == 13,
        "StartCalendarInterval"@.len() == 21,
        "Weekday"@.len() == 7,
        "Hour"@.len() == 4,
        "Minute"@.len() == 6,
        "PATH"@[0] == 'P',
        "Hour"@[0] == 'H',
        "StartInterval"@[0] == 'S',
        "LowPriorityIO"@[0] == 'L',
        "RunAtLoad"@.last() != '\n',
        "StandardOutPath"@.last() != '\n',
        "StandardErrorPath"@.last() != '\n',
        "ProcessType"@.last() != '\n',
        "LowPriorityIO"@.last() != '\n',
{
    reveal_strlit("Label");
    reveal_strlit("ProgramArguments");
    reveal_strlit("EnvironmentVariables");
    reveal_strlit("PATH");
    reveal_strlit("RunAtLoad");
    reveal_strlit("StandardOutPath");
    reveal_strlit("StandardErrorPath");
    reveal_strlit("ProcessType");
    reveal_strlit("LowPriorityIO");
    reveal_strlit("StartInterval");
    reveal_strlit("StartCalendarInterval");
    reveal_strlit("Weekday");
    reveal_strlit("Hour");
    reveal_strlit("Minute");
}

/// A piece with an escaped string gives the string.
proof fn lemma_string_in(value: Seq<char>)
    ensures
        "string>"@.is_prefix_of("string>"@ + xml_escaped(value)),
        string_in("string>"@ + xml_escaped(value)) == Some(value),
{
    let tag = "string>"@;
    let piece = tag + xml_escaped(value);
    assert(tag =~= piece.subrange(0, tag.len() as int));
    assert(piece.skip(tag.len() as int) =~= xml_escaped(value));
    law_unescape_undoes_escape(value);
}

/// A piece with a number gives the number.
proof fn lemma_number_in(n: nat)
    ensures
        text_behind("integer>"@ + decimal(n), "integer>"@) == Some(decimal(n)),
        decimal_value(decimal(n)) == n,
{
    let tag = "integer>"@;
    let piece = tag + decimal(n);
    assert(tag =~= piece.subrange(0, tag.len() as int));
    assert(piece.skip(tag.len() as int) =~= decimal(n));
    law_decimal_reads_back(n);
}

/// Where a key of a document is found: before the schedule, in it, or behind it.
proof fn lemma_key_index(
    label: Seq<char>,
    exe: Seq<char>,
    name: Seq<char>,
    schedule: Seq<char>,
    log_dir: Seq<char>,
    key: Seq<char>,
)
    ensures
        ({
            let fp = front_pieces(label, exe, name);
            let mp = pieces(middle(schedule), '<');
            let bp = back_pieces(
                joined(log_dir, name + ".stdout.log"@),
                joined(log_dir, name + ".stderr.log"@),
            );
            let doc = plist_text(label, exe, name, schedule, log_dir);
            let x = "key>"@ + key;
            &&& pieces(doc, '<') == fp + mp + bp
            &&& key_index(doc, key) == if first_index(fp, x) < fp.len() {
                first_index(fp, x)
            } else if first_index(mp, x) < mp.len() {
                fp.len() + first_index(mp, x)
            } else {
                fp.len() + mp.len() + first_index(bp, x)
            }
        }),
{
    let fp = front_pieces(label, exe, name);
    let mp = pieces(middle(schedule), '<');
    let bp = back_pieces(
        joined(log_dir, name + ".stdout.log"@),
        joined(log_dir, name + ".stderr.log"@),
    );
    let x = "key>"@ + key;
    lemma_document(label, exe, name, schedule, log_dir);
    lemma_first_index_in_both(fp, mp, x);
    lemma_first_index_in_both(fp + mp, bp, x);
    lemma_first_index_in_both(mp, bp, x);
}

/// The label of a document.
proof fn lemma_label_value(
    label: Seq<char>,
    exe: Seq<char>,
    name: Seq<char>,
    schedule: Seq<char>,
    log_dir: Seq<char>,
)
    ensures
        string_value(plist_text(label, exe, name, schedule, log_dir), "Label"@) == Some(label),
{
    let fp = front_pieces(label, exe, name);
    let ps = pieces(plist_text(label, exe, name, schedule, log_dir), '<');
    lemma_key_index(label, exe, name, schedule, log_dir, "Label"@);
    lemma_front_keys(label, exe, name, "Label"@);
    lemma_string_in(label);
    assert(ps[7] == fp[7]);
}

/// The program arguments of a document.
#[verifier::rlimit(40)]
proof fn lemma_arguments_value(
    label: Seq<char>,
    exe: Seq<char>,
    name: Seq<char>,
    schedule: Seq<char>,
    log_dir: Seq<char>,
)
    ensures
        array_value(plist_text(label, exe, name, schedule, log_dir), "ProgramArguments"@) == seq![
            Some(exe),
            Some(name),
        ],
{
    let fp = front_pieces(label, exe, name);
    let ps = pieces(plist_text(label, exe, name, schedule, log_dir), '<');
    lemma_key_names();
    lemma_key_index(label, exe, name, schedule, log_dir, "ProgramArguments"@);
    lemma_front_keys(label, exe, name, "ProgramArguments"@);
    assert(fp.len() == 24);
    lemma_string_in(exe);
    lemma_string_in(name);
    reveal_strlit("array>");
    reveal_strlit("array>\n    ");
    reveal_strlit("/array>\n");
    reveal_strlit("string>");
    assert(ps[11] == fp[11]);
    assert("array>"@ =~= ps[11].subrange(0, 6));
    assert(ps[12] == fp[12]);
    assert(ps[14] == fp[14]);
    assert(ps[16] == fp[16]);
    assert(!"string>"@.is_prefix_of(ps[16])) by {
        assert(ps[16][0] == '/');
        assert("string>"@[0] == 's');
    }
    assert(strings_from(ps, 16) =~= Seq::<Option<Seq<char>>>::empty());
    assert(strings_from(ps, 14) =~= seq![Some(name)]);
    assert(strings_from(ps, 12) =~= seq![Some(exe), Some(name)]);
}

/// The search path of a document.
proof fn lemma_path_value(
    label: Seq<char>,
    exe: Seq<char>,
    name: Seq<char>,
    schedule: Seq<char>,
    log_dir: Seq<char>,
)
    ensures
        string_value(plist_text(label, exe, name, schedule, log_dir), "PATH"@) == Some(
            "/usr/local/bin:/opt/homebrew/bin:/usr/bin:/bin"@,
        ),
{
    let fp = front_pieces(label, exe, name);
    let ps = pieces(plist_text(label, exe, name, schedule, log_dir), '<');
    let path = "/usr/local/bin:/opt/homebrew/bin:/usr/bin:/bin"@;
    lemma_key_names();
    lemma_key_index(label, exe, name, schedule, log_dir, "PATH"@);
    lemma_front_keys(label, exe, name, "PATH"@);
    assert(fp.len() == 24);
    assert(fp[22] == "string>"@ + xml_escaped(path)) by {
        reveal_strlit("string>");
        reveal_strlit("/usr/local/bin:/opt/homebrew/bin:/usr/bin:/bin");
        reveal_strlit("string>/usr/local/bin:/opt/homebrew/bin:/usr/bin:/bin");
        law_escape_keeps_plain_text(path);
        assert(fp[22] =~= "string>"@ + path);
    }
    lemma_string_in(path);
    assert(ps[22] == fp[22]);
}

/// The property list of an agent, whatever its schedule, reads back: its label, and as the strings
/// of the program arguments the program and the agent's name, these two and no others. The program
/// finds its commands in the usual directories.
pub proof fn law_plist_reads_back(
    label: Seq<char>,
    exe: Seq<char>,
    name: Seq<char>,
    schedule: Seq<char>,
    log_dir: Seq<char>,
)
    ensures
        ({
            let doc = plist_text(label, exe, name, schedule, log_dir);
            &&& string_value(doc, "Label"@) == Some(label)
            &&& array_value(doc, "ProgramArguments"@) == seq![Some(exe), Some(name)]
            &&& string_value(doc, "PATH"@) == Some(
                "/usr/local/bin:/opt/homebrew/bin:/usr/bin:/bin"@,
            )
        }),
{
    lemma_label_value(label, exe, name, schedule, log_dir);
    lemma_arguments_value(label, exe, name, schedule, log_dir);
    lemma_path_value(label, exe, name, schedule, log_dir);
}

/// Documents are the same only where the labels, the programs and the names of their agents are.
pub proof fn law_plists_tell_agents_apart(
    a: (Seq<char>, Seq<char>, Seq<char>, Seq<char>, Seq<char>),
    b: (Seq<char>, Seq<char>, Seq<char>, Seq<char>, Seq<char>),
)
    requires
        plist_text(a.0, a.1, a.2, a.3, a.4) == plist_text(b.0, b.1, b.2, b.3, b.4),
    ensures
        a.0 == b.0,
        a.1 == b.1,
        a.2 == b.2,
{
    law_plist_reads_back(a.0, a.1, a.2, a.3, a.4);
    law_plist_reads_back(b.0, b.1, b.2, b.3, b.4);
    assert(seq![Some(a.1), Some(a.2)][0] == seq![Some(b.1), Some(b.2)][0]);
    assert(seq![Some(a.1), Some(a.2)][1] == seq![Some(b.1), Some(b.2)][1]);
}

/// What the keys behind the schedule of an agent's property list give: the agent does not run when
/// it is loaded, its logs are named after it, and it runs in the background.
pub open spec fn runs_in_background(doc: Seq<char>, name: Seq<char>, log_dir: Seq<char>) -> bool {
    &&& text_behind(value_piece(doc, "RunAtLoad"@), "false/>"@) is Some
    &&& string_value(doc, "StandardOutPath"@) == Some(joined(log_dir, name + ".stdout.log"@))
    &&& string_value(doc, "StandardErrorPath"@) == Some(joined(log_dir, name + ".stderr.log"@))
    &&& string_value(doc, "ProcessType"@) == Some("Background"@)
    &&& text_behind(value_piece(doc, "LowPriorityIO"@), "true/>"@) is Some
}

/// The value of a key that stands behind the schedule only.
proof fn lemma_value_behind(
    label: Seq<char>,
    exe: Seq<char>,
    name: Seq<char>,
    schedule: Seq<char>,
    log_dir: Seq<char>,
    key: Seq<char>,
)
    requires
        first_index(front_pieces(label, exe, name), "key>"@ + key) == 24,
        first_index(pieces(middle(schedule), '<'), "key>"@ + key) == pieces(
            middle(schedule),
            '<',
        ).len(),
    ensures
        ({
            let bp = back_pieces(
                joined(log_dir, name + ".stdout.log"@),
                joined(log_dir, name + ".stderr.log"@),
            );
            let k = first_index(bp, "key>"@ + key);
            k + 2 < bp.len() ==> value_piece(
                plist_text(label, exe, name, schedule, log_dir),
                key,
            ) == bp[k + 2]
        }),
{
    let bp = back_pieces(
        joined(log_dir, name + ".stdout.log"@),
        joined(log_dir, name + ".stderr.log"@),
    );
    let fp = front_pieces(label, exe, name);
    let mp = pieces(middle(schedule), '<');
    let k = first_index(bp, "key>"@ + key);
    lemma_key_index(label, exe, name, schedule, log_dir, key);
    lemma_first_index(bp, "key>"@ + key);
    assert(fp.len() == 24);
    if k + 2 < bp.len() {
        assert((fp + mp + bp)[fp.len() + mp.len() + k + 2] == bp[k + 2]);
    }
}

/// The agent does not run when it is loaded.
proof fn lemma_run_at_load(
    label: Seq<char>,
    exe: Seq<char>,
    name: Seq<char>,
    schedule: Seq<char>,
    log_dir: Seq<char>,
)
    requires
        first_index(pieces(middle(schedule), '<'), "key>"@ + "RunAtLoad"@) == pieces(
            middle(schedule),
            '<',
        ).len(),
    ensures
        text_behind(
            value_piece(plist_text(label, exe, name, schedule, log_dir), "RunAtLoad"@),
            "false/>"@,
        ) is Some,
{
    let out_log = joined(log_dir, name + ".stdout.log"@);
    let err_log = joined(log_dir, name + ".stderr.log"@);
    let bp = back_pieces(out_log, err_log);
    lemma_key_names();
    lemma_front_keys(label, exe, name, "RunAtLoad"@);
    lemma_back_keys(out_log, err_log, "RunAtLoad"@);
    lemma_value_behind(label, exe, name, schedule, log_dir, "RunAtLoad"@);
    reveal_strlit("false/>");
    reveal_strlit("false/>\n");
    assert("false/>"@ =~= bp[2].subrange(0, 7));
}

/// The log of what the agent prints.
proof fn lemma_out_log(
    label: Seq<char>,
    exe: Seq<char>,
    name: Seq<char>,
    schedule: Seq<char>,
    log_dir: Seq<char>,
)
    requires
        first_index(pieces(middle(schedule), '<'), "key>"@ + "StandardOutPath"@) == pieces(
            middle(schedule),
            '<',
        ).len(),
    ensures
        string_value(plist_text(label, exe, name, schedule, log_dir), "StandardOutPath"@) == Some(
            joined(log_dir, name + ".stdout.log"@),
        ),
{
    let out_log = joined(log_dir, name + ".stdout.log"@);
    let err_log = joined(log_dir, name + ".stderr.log"@);
    let bp = back_pieces(out_log, err_log);
    lemma_key_names();
    lemma_front_keys(label, exe, name, "StandardOutPath"@);
    lemma_back_keys(out_log, err_log, "StandardOutPath"@);
    lemma_value_behind(label, exe, name, schedule, log_dir, "StandardOutPath"@);
    lemma_string_in(out_log);
    assert(bp[5] == "string>"@ + xml_escaped(out_log));
}

/// The log of the errors that the agent prints.
proof fn lemma_err_log(
    label: Seq<char>,
    exe: Seq<char>,
    name: Seq<char>,
    schedule: Seq<char>,
    log_dir: Seq<char>,
)
    requires
        first_index(pieces(middle(schedule), '<'), "key>"@ + "StandardErrorPath"@) == pieces(
            middle(schedule),
            '<',
        ).len(),
    ensures
        string_value(plist_text(label, exe, name, schedule, log_dir), "StandardErrorPath"@) == Some(
            joined(log_dir, name + ".stderr.log"@),
        ),
{
    let out_log = joined(log_dir, name + ".stdout.log"@);
    let err_log = joined(log_dir, name + ".stderr.log"@);
    let bp = back_pieces(out_log, err_log);
    lemma_key_names();
    lemma_front_keys(label, exe, name, "StandardErrorPath"@);
    lemma_back_keys(out_log, err_log, "StandardErrorPath"@);
    lemma_value_behind(label, exe, name, schedule, log_dir, "StandardErrorPath"@);
    lemma_string_in(err_log);
    assert(bp[9] == "string>"@ + xml_escaped(err_log));
}

/// The agent is a background process.
proof fn lemma_process_type(
    label: Seq<char>,
    exe: Seq<char>,
    name: Seq<char>,
    schedule: Seq<char>,
    log_dir: Seq<char>,
)
    requires
        first_index(pieces(middle(schedule), '<'), "key>"@ + "ProcessType"@) == pieces(
            middle(schedule),
            '<',
        ).len(),
    ensures
        string_value(plist_text(label, exe, name, schedule, log_dir), "ProcessType"@) == Some(
            "Background"@,
        ),
{
    let out_log = joined(log_dir, name + ".stdout.log"@);
    let err_log = joined(log_dir, name + ".stderr.log"@);
    let bp = back_pieces(out_log, err_log);
    lemma_key_names();
    lemma_front_keys(label, exe, name, "ProcessType"@);
    lemma_back_keys(out_log, err_log, "ProcessType"@);
    lemma_value_behind(label, exe, name, schedule, log_dir, "ProcessType"@);
    assert(bp[13] == "string>"@ + xml_escaped("Background"@)) by {
        reveal_strlit("Background");
        reveal_strlit("string>");
        reveal_strlit("string>Background");
        law_escape_keeps_plain_text("Background"@);
        assert(bp[13] =~= "string>"@ + "Background"@);
    }
    lemma_string_in("Background"@);
}

/// The agent reads and writes with low priority.
proof fn lemma_low_priority(
    label: Seq<char>,
    exe: Seq<char>,
    name: Seq<char>,
    schedule: Seq<char>,
    log_dir: Seq<char>,
)
    requires
        first_index(pieces(middle(schedule), '<'), "key>"@ + "LowPriorityIO"@) == pieces(
            middle(schedule),
            '<',
        ).len(),
    ensures
        text_behind(
            value_piece(plist_text(label, exe, name, schedule, log_dir), "LowPriorityIO"@),
            "true/>"@,
        ) is Some,
{
    let out_log = joined(log_dir, name + ".stdout.log"@);
    let err_log = joined(log_dir, name + ".stderr.log"@);
    let bp = back_pieces(out_log, err_log);
    lemma_key_names();
    lemma_front_keys(label, exe, name, "LowPriorityIO"@);
    lemma_back_keys(out_log, err_log, "LowPriorityIO"@);
    lemma_value_behind(label, exe, name, schedule, log_dir, "LowPriorityIO"@);
    reveal_strlit("true/>");
    reveal_strlit("true/>\n");
    assert("true/>"@ =~= bp[17].subrange(0, 6));
}

/// The keys behind a schedule that has none of them.
proof fn lemma_behind_schedule(
    label: Seq<char>,
    exe: Seq<char>,
    name: Seq<char>,
    schedule: Seq<char>,
    log_dir: Seq<char>,
)
    requires
        ({
            let mp = pieces(middle(schedule), '<');
            &&& first_index(mp, "key>"@ + "RunAtLoad"@) == mp.len()
            &&& first_index(mp, "key>"@ + "StandardOutPath"@) == mp.len()
            &&& first_index(mp, "key>"@ + "StandardErrorPath"@) == mp.len()
            &&& first_index(mp, "key>"@ + "ProcessType"@) == mp.len()
            &&& first_index(mp, "key>"@ + "LowPriorityIO"@) == mp.len()
        }),
    ensures
        runs_in_background(plist_text(label, exe, name, schedule, log_dir), name, log_dir),
{
    lemma_run_at_load(label, exe, name, schedule, log_dir);
    lemma_out_log(label, exe, name, schedule, log_dir);
    lemma_err_log(label, exe, name, schedule, log_dir);
    lemma_process_type(label, exe, name, schedule, log_dir);
    lemma_low_priority(label, exe, name, schedule, log_dir);
}

/// No piece before the first index is the one that is looked for.
proof fn lemma_first_index(ps: Seq<Seq<char>>, x: Seq<char>)
    ensures
        0 <= first_index(ps, x) <= ps.len(),
        forall|i: int| 0 <= i < first_index(ps, x) ==> #[trigger] ps[i] != x,
    decreases ps.len(),
{
    if ps.len() > 0 && ps[0] != x {
        let rest = ps.skip(1);
        lemma_first_index(rest, x);
        assert forall|i: int| 0 <= i < first_index(ps, x) implies #[trigger] ps[i] != x by {
            if i > 0 {
                assert(ps[i] == rest[i - 1]);
            }
        }
    }
}

/// A key that a schedule has not, the schedule has not in its place either.
proof fn lemma_no_key_in_middle(schedule: Seq<char>, key: Seq<char>)
    requires
        !has_key(schedule, key),
        key.len() > 0,
        key.last() != '\n',
    ensures
        first_index(pieces(middle(schedule), '<'), "key>"@ + key) == pieces(
            middle(schedule),
            '<',
        ).len(),
{
    let x = "key>"@ + key;
    let tag = "/dict>\n"@;
    let end = "\n"@;
    let sp = pieces(schedule, '<');
    let mp = pieces(middle(schedule), '<');
    reveal_strlit("key>");
    reveal_strlit("/dict>\n");
    reveal_strlit("\n");
    lemma_one_piece(tag, '<');
    lemma_one_piece(end, '<');
    lemma_pieces_of_both(tag, schedule, '<');
    lemma_pieces_of_both(tag + schedule, end, '<');
    let with_tag = pieces(tag + schedule, '<');
    assert(with_tag =~= seq![tag + sp[0]] + sp.skip(1));
    assert(mp =~= with_tag.drop_last().push(with_tag.last() + end));
    lemma_first_index(sp, x);
    assert(x[0] == 'k');
    assert(x.last() == key.last());
    assert forall|i: int| 0 <= i < mp.len() implies #[trigger] mp[i] != x by {
        if i == mp.len() - 1 {
            assert(mp[i].last() == '\n');
        } else if i == 0 {
            assert(mp[i][0] == '/');
        } else {
            assert(mp[i] == sp[i]);
        }
    }
    lemma_first_index_is(mp, x, mp.len() as int);
}

/// Behind any schedule that does not itself have these keys, the property list of an agent says
/// that the agent runs in the background, with logs of its own.
pub proof fn law_plist_runs_in_background(
    label: Seq<char>,
    exe: Seq<char>,
    name: Seq<char>,
    schedule: Seq<char>,
    log_dir: Seq<char>,
)
    requires
        !has_key(schedule, "RunAtLoad"@),
        !has_key(schedule, "StandardOutPath"@),
        !has_key(schedule, "StandardErrorPath"@),
        !has_key(schedule, "ProcessType"@),
        !has_key(schedule, "LowPriorityIO"@),
    ensures
        runs_in_background(plist_text(label, exe, name, schedule, log_dir), name, log_dir),
{
    lemma_key_names();
    lemma_no_key_in_middle(schedule, "RunAtLoad"@);
    lemma_no_key_in_middle(schedule, "StandardOutPath"@);
    lemma_no_key_in_middle(schedule, "StandardErrorPath"@);
    lemma_no_key_in_middle(schedule, "ProcessType"@);
    lemma_no_key_in_middle(schedule, "LowPriorityIO"@);
    lemma_behind_schedule(label, exe, name, schedule, log_dir);
}

/// The property list of an agent with an interval gives the interval in seconds, and no time of
/// day.
#[verifier::rlimit(40)]
pub proof fn law_interval_reads_back(
    label: Seq<char>,
    exe: Seq<char>,
    name: Seq<char>,
    seconds: nat,
    log_dir: Seq<char>,
)
    ensures
        ({
            let doc = plist_text(label, exe, name, interval_text(seconds), log_dir);
            &&& integer_value(doc, "StartInterval"@) == Some(seconds as int)
            &&& !has_key(doc, "StartCalendarInterval"@)
            &&& runs_in_background(doc, name, log_dir)
        }),
{
    let schedule = interval_text(seconds);
    let doc = plist_text(label, exe, name, schedule, log_dir);
    let out_log = joined(log_dir, name + ".stdout.log"@);
    let err_log = joined(log_dir, name + ".stderr.log"@);
    let fp = front_pieces(label, exe, name);
    let mp = pieces(middle(schedule), '<');
    let ps = pieces(doc, '<');
    lemma_key_names();
    lemma_interval_pieces(seconds);
    lemma_interval_keys(seconds, "RunAtLoad"@);
    lemma_interval_keys(seconds, "StandardOutPath"@);
    lemma_interval_keys(seconds, "StandardErrorPath"@);
    lemma_interval_keys(seconds, "ProcessType"@);
    lemma_interval_keys(seconds, "LowPriorityIO"@);
    assert(mp.len() == 5 && fp.len() == 24);
    lemma_behind_schedule(label, exe, name, schedule, log_dir);
    lemma_key_index(label, exe, name, schedule, log_dir, "StartInterval"@);
    lemma_front_keys(label, exe, name, "StartInterval"@);
    lemma_interval_keys(seconds, "StartInterval"@);
    assert(ps[27] == mp[3]);
    lemma_number_in(seconds);
    lemma_key_index(label, exe, name, schedule, log_dir, "StartCalendarInterval"@);
    lemma_front_keys(label, exe, name, "StartCalendarInterval"@);
    lemma_interval_keys(seconds, "StartCalendarInterval"@);
    lemma_back_keys(out_log, err_log, "StartCalendarInterval"@);
}

/// The property list of an agent with a time of day gives the hour, the minute and the weekday
/// where there is one, and no interval.
#[verifier::rlimit(40)]
pub proof fn law_calendar_reads_back(
    label: Seq<char>,
    exe: Seq<char>,
    name: Seq<char>,
    weekday: Option<u8>,
    time: (nat, nat),
    log_dir: Seq<char>,
)
    ensures
        ({
            let doc = plist_text(
                label,
                exe,
                name,
                calendar_text(weekday, time.0, time.1),
                log_dir,
            );
            &&& has_key(doc, "StartCalendarInterval"@)
            &&& integer_value(doc, "Hour"@) == Some(time.0 as int)
            &&& integer_value(doc, "Minute"@) == Some(time.1 as int)
            &&& weekday matches Some(day) ==> integer_value(doc, "Weekday"@) == Some(day as int)
            &&& weekday is None ==> !has_key(doc, "Weekday"@)
            &&& !has_key(doc, "StartInterval"@)
            &&& runs_in_background(doc, name, log_dir)
        }),
{
    let (hour, minute) = time;
    let schedule = calendar_text(weekday, hour, minute);
    let doc = plist_text(label, exe, name, schedule, log_dir);
    let out_log = joined(log_dir, name + ".stdout.log"@);
    let err_log = joined(log_dir, name + ".stderr.log"@);
    let fp = front_pieces(label, exe, name);
    let mp = pieces(middle(schedule), '<');
    let ps = pieces(doc, '<');
    lemma_key_names();
    lemma_calendar_keys(weekday, hour, minute, "RunAtLoad"@);
    lemma_calendar_keys(weekday, hour, minute, "StandardOutPath"@);
    lemma_calendar_keys(weekday, hour, minute, "StandardErrorPath"@);
    lemma_calendar_keys(weekday, hour, minute, "ProcessType"@);
    lemma_calendar_keys(weekday, hour, minute, "LowPriorityIO"@);
    lemma_calendar_keys(weekday, hour, minute, "StartCalendarInterval"@);
    lemma_calendar_keys(weekday, hour, minute, "Hour"@);
    lemma_calendar_keys(weekday, hour, minute, "Minute"@);
    lemma_calendar_keys(weekday, hour, minute, "Weekday"@);
    lemma_calendar_keys(weekday, hour, minute, "StartInterval"@);
    lemma_behind_schedule(label, exe, name, schedule, log_dir);
    lemma_key_index(label, exe, name, schedule, log_dir, "StartCalendarInterval"@);
    lemma_key_index(label, exe, name, schedule, log_dir, "Hour"@);
    lemma_key_index(label, exe, name, schedule, log_dir, "Minute"@);
    lemma_key_index(label, exe, name, schedule, log_dir, "Weekday"@);
    lemma_key_index(label, exe, name, schedule, log_dir, "StartInterval"@);
    lemma_front_keys(label, exe, name, "StartCalendarInterval"@);
    lemma_front_keys(label, exe, name, "Hour"@);
    lemma_front_keys(label, exe, name, "Minute"@);
    lemma_front_keys(label, exe, name, "Weekday"@);
    lemma_front_keys(label, exe, name, "StartInterval"@);
    lemma_back_keys(out_log, err_log, "Weekday"@);
    lemma_back_keys(out_log, err_log, "StartInterval"@);
    lemma_number_in(hour);
    lemma_number_in(minute);
    assert(fp.len() == 24);
    match weekday {
        Some(day) => {
            lemma_weekly_pieces(day, hour, minute);
            lemma_number_in(day as nat);
            assert(ps[30] == mp[6]);
            assert(ps[34] == mp[10]);
            assert(ps[38] == mp[14]);
        },
        None => {
            lemma_daily_pieces(hour, minute);
            assert(ps[30] == mp[6]);
            assert(ps[34] == mp[10]);
        },
    }
}

/// Where a key of a calendar schedule is found.
proof fn lemma_calendar_keys(weekday: Option<u8>, hour: nat, minute: nat, key: Seq<char>)
    ensures
        ({
            let mp = pieces(middle(calendar_text(weekday, hour, minute)), '<');
            let days = if weekday is Some {
                4int
            } else {
                0int
            };
            &&& mp.len() == 13 + days
            &&& first_index(mp, "key>"@ + key) == if key == "StartCalendarInterval"@ {
                1int
            } else if weekday is Some && key == "Weekday"@ {
                4int
            } else if key == "Hour"@ {
                4 + days
            } else if key == "Minute"@ {
                8 + days
            } else {
                13 + days
            }
        }),
{
    match weekday {
        Some(day) => {
            lemma_weekly_pieces(day, hour, minute);
            lemma_weekly_keys(day, hour, minute, key);
        },
        None => {
            lemma_daily_pieces(hour, minute);
            lemma_daily_keys(hour, minute, key);
        },
    }
}

} // verus!

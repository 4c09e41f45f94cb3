//! launchd agents: labels, schedules and property list documents.

use vstd::prelude::*;
use vstd::utf8::{
    decode_utf8, decode_utf8_encode_utf8, decode_utf8_split, encode_utf8, encode_utf8_decode_utf8,
    encode_utf8_valid_utf8, is_ascii_chars, is_ascii_chars_encode_utf8, is_char_boundary,
    is_char_boundary_iff_is_leading_byte, valid_utf8_split,
};
use crate::config::{Config, DOMAIN, SUBDOMAIN, TLD};
use crate::label::{domain_label, is_alphanumeric, law_result_is_domain_label};
use crate::path::{join_path, joined};
use crate::text::{
    at_most, decimal, lemma_first_piece, lemma_one_piece, pieces, print_decimal,
};
use crate::xml::xml_escaped;

pub use crate::label::{sanitize_as_domain_label, FALLBACK_LABEL, MAX_LABEL_LEN};
pub use crate::xml::xml_escape;

verus! {

/// The longest full label of an agent, in bytes.
pub const MAX_NAME_LEN: usize = 255;

/// The reverse domain name of an agent, before it is cut: application, user, agent.
pub open spec fn full_label(username: Seq<char>, name: Seq<char>) -> Seq<char> {
    TLD@ + "."@ + DOMAIN@ + "."@ + SUBDOMAIN@ + "."@ + domain_label(username) + "."@ + name
}

/// A cut of the UTF-8 form of `s` behind `n` bytes does not split a character.
pub open spec fn can_cut(s: Seq<char>, n: int) -> bool {
    encode_utf8(s).len() > n ==> is_char_boundary(encode_utf8(s), n)
}

/// The first `n` bytes of the UTF-8 form of `s`, as text.
pub open spec fn cut_to_bytes(s: Seq<char>, n: int) -> Seq<char> {
    if encode_utf8(s).len() <= n {
        s
    } else {
        decode_utf8(encode_utf8(s).take(n))
    }
}

/// The label of the user's agent of the given name.
pub fn plist_label(cfg: &Config, name: &str) -> (out: String)
    requires
        can_cut(full_label(cfg.username@, name@), MAX_NAME_LEN as int),
    ensures
        out@ == cut_to_bytes(full_label(cfg.username@, name@), MAX_NAME_LEN as int),
{
    let mut full = TLD.to_owned();
    full.append(".");
    full.append(DOMAIN);
    full.append(".");
    full.append(SUBDOMAIN);
    full.append(".");
    full.append(sanitize_as_domain_label(cfg.username.as_str()).as_str());
    full.append(".");
    full.append(name);
    if full.as_str().as_bytes().len() <= MAX_NAME_LEN {
        full
    } else {
        let parts = full.as_str().split_at(MAX_NAME_LEN);
        proof {
            let bytes = encode_utf8(full@);
            encode_utf8_decode_utf8(parts.0@);
            assert(bytes.subrange(0, MAX_NAME_LEN as int) =~= bytes.take(MAX_NAME_LEN as int));
        }
        parts.0.to_owned()
    }
}

/// A label is the start of the full label, whole where that is at most 255 bytes long, and never
/// longer than 255 bytes.
pub proof fn law_label_is_bounded_prefix(username: Seq<char>, name: Seq<char>)
    requires
        can_cut(full_label(username, name), MAX_NAME_LEN as int),
    ensures
        ({
            let full = full_label(username, name);
            let label = cut_to_bytes(full, MAX_NAME_LEN as int);
            &&& encode_utf8(label).len() <= MAX_NAME_LEN
            &&& label.is_prefix_of(full)
            &&& encode_utf8(full).len() <= MAX_NAME_LEN ==> label == full
            &&& encode_utf8(full).len() > MAX_NAME_LEN ==> encode_utf8(label).len() == MAX_NAME_LEN
        }),
{
    let full = full_label(username, name);
    let bytes = encode_utf8(full);
    let n = MAX_NAME_LEN as int;
    if bytes.len() > n {
        encode_utf8_valid_utf8(full);
        encode_utf8_decode_utf8(full);
        valid_utf8_split(bytes, n);
        decode_utf8_split(bytes, n);
        assert(bytes.subrange(0, n) =~= bytes.take(n));
        decode_utf8_encode_utf8(bytes.take(n));
        let label = decode_utf8(bytes.take(n));
        assert(label =~= full.subrange(0, label.len() as int));
    }
}

/// Every character of the part of a full label that precedes the agent's name is ASCII.
proof fn lemma_full_label_ascii(username: Seq<char>, name: Seq<char>)
    requires
        is_ascii_chars(name),
    ensures
        is_ascii_chars(full_label(username, name)),
{
    reveal_strlit("net");
    reveal_strlit("nausicaea");
    reveal_strlit("serpula");
    reveal_strlit(".");
    law_result_is_domain_label(username);
    let user = domain_label(username);
    let head = TLD@ + "."@ + DOMAIN@ + "."@ + SUBDOMAIN@ + "."@;
    assert(is_ascii_chars(head));
    assert(is_ascii_chars(head + user));
    assert(is_ascii_chars(head + user + "."@));
}

/// An agent whose name is ASCII has a label: the cut falls between two characters.
pub proof fn law_ascii_name_has_label(username: Seq<char>, name: Seq<char>)
    requires
        is_ascii_chars(name),
    ensures
        can_cut(full_label(username, name), MAX_NAME_LEN as int),
        cut_to_bytes(full_label(username, name), MAX_NAME_LEN as int) == at_most(
            full_label(username, name),
            MAX_NAME_LEN as int,
        ),
{
    let full = full_label(username, name);
    let bytes = encode_utf8(full);
    let n = MAX_NAME_LEN as int;
    lemma_full_label_ascii(username, name);
    is_ascii_chars_encode_utf8(full);
    if bytes.len() > n {
        encode_utf8_valid_utf8(full);
        assert('\0' <= full[n] <= '\u{7f}');
        is_char_boundary_iff_is_leading_byte(bytes, n);
        let front = full.take(n);
        assert(is_ascii_chars(front));
        is_ascii_chars_encode_utf8(front);
        assert(encode_utf8(front) =~= bytes.take(n));
        encode_utf8_decode_utf8(front);
    }
}

/// The schedule of an agent that runs again and again after an interval.
pub open spec fn interval_text(seconds: nat) -> Seq<char> {
    "    <key>StartInterval</key>\n    <integer>"@ + decimal(seconds) + "</integer>"@
}

/// The schedule of an agent that runs every so many seconds.
pub fn schedule_interval(seconds: u64) -> (out: String)
    ensures
        out@ == interval_text(seconds as nat),
{
    "    <key>StartInterval</key>\n    <integer>".to_owned().concat(
        print_decimal(seconds).as_str(),
    ).concat("</integer>")
}

/// The weekday entry of a calendar schedule, empty where there is no weekday.
pub open spec fn weekday_text(weekday: Option<u8>) -> Seq<char> {
    match weekday {
        Some(day) => "        <key>Weekday</key>\n        <integer>"@ + decimal(day as nat)
            + "</integer>\n"@,
        None => Seq::empty(),
    }
}

/// The schedule of an agent that runs at a time of day, on one weekday or on all.
pub open spec fn calendar_text(weekday: Option<u8>, hour: nat, minute: nat) -> Seq<char> {
    "    <key>StartCalendarInterval</key>\n    <dict>\n"@ + weekday_text(weekday)
        + "        <key>Hour</key>\n        <integer>"@ + decimal(hour)
        + "</integer>\n        <key>Minute</key>\n        <integer>"@ + decimal(minute)
        + "</integer>\n    </dict>"@
}

/// The schedule of an agent that runs at a time of day, on one weekday or on all.
pub fn schedule_calendar(weekday: Option<u8>, hour: u8, minute: u8) -> (out: String)
    ensures
        out@ == calendar_text(weekday, hour as nat, minute as nat),
{
    let mut out = "    <key>StartCalendarInterval</key>\n    <dict>\n".to_owned();
    if let Some(day) = weekday {
        let entry = "        <key>Weekday</key>\n        <integer>".to_owned().concat(
            print_decimal(day as u64).as_str(),
        ).concat("</integer>\n");
        out.append(entry.as_str());
    } else {
        proof {
            assert(out@ + Seq::<char>::empty() =~= out@);
        }
    }
    out.append("        <key>Hour</key>\n        <integer>");
    out.append(print_decimal(hour as u64).as_str());
    out.append("</integer>\n        <key>Minute</key>\n        <integer>");
    out.append(print_decimal(minute as u64).as_str());
    out.append("</integer>\n    </dict>");
    out
}

pub const PLIST_HEAD: &'static str =
    "<?xml version=\"1.0\" encoding=\"UTF-8\"?>\n\
    <!DOCTYPE plist PUBLIC \"-//Apple//DTD PLIST 1.0//EN\" \"http://www.apple.com/DTDs/PropertyList-1.0.dtd\">\n\
    <plist version=\"1.0\">\n\
    <dict>\n\
    <key>Label</key>\n\
    <string>";

pub const PLIST_PROGRAM: &'static str =
    "</string>\n\
    <key>ProgramArguments</key>\n\
    <array>\n\
    \x20   <string>";

pub const PLIST_ARGUMENT: &'static str = "</string>\n    <string>";

pub const PLIST_ENVIRONMENT: &'static str =
    "</string>\n\
    </array>\n\
    <key>EnvironmentVariables</key>\n\
    <dict>\n\
    \x20   <key>PATH</key>\n\
    \x20   <string>/usr/local/bin:/opt/homebrew/bin:/usr/bin:/bin</string>\n\
    </dict>\n";

pub const PLIST_STDOUT: &'static str =
    "\n\
    <key>RunAtLoad</key>\n\
    <false/>\n\
    <key>StandardOutPath</key>\n\
    <string>";

pub const PLIST_STDERR: &'static str = "</string>\n<key>StandardErrorPath</key>\n<string>";

pub const PLIST_TAIL: &'static str =
    "</string>\n\
    <key>ProcessType</key>\n\
    <string>Background</string>\n\
    <key>LowPriorityIO</key>\n\
    <true/>\n\
    </dict>\n\
    </plist>\n";

/// The property list of an agent: its label, the program and its one argument, the schedule, and
/// the two log files.
pub open spec fn plist_text(
    label: Seq<char>,
    exe: Seq<char>,
    name: Seq<char>,
    schedule: Seq<char>,
    log_dir: Seq<char>,
) -> Seq<char> {
    PLIST_HEAD@ + xml_escaped(label) + PLIST_PROGRAM@ + xml_escaped(exe) + PLIST_ARGUMENT@
        + xml_escaped(name) + PLIST_ENVIRONMENT@ + schedule + PLIST_STDOUT@ + xml_escaped(
        joined(log_dir, name + ".stdout.log"@),
    ) + PLIST_STDERR@ + xml_escaped(joined(log_dir, name + ".stderr.log"@)) + PLIST_TAIL@
}

/// The property list of the user's agent that runs the program with the agent's name as its one
/// argument. The schedule is XML already; everything else is escaped.
pub fn plist_document(config: &Config, exe: &str, name: &str, schedule_xml: &str) -> (out: String)
    requires
        can_cut(full_label(config.username@, name@), MAX_NAME_LEN as int),
    ensures
        out@ == plist_text(
            cut_to_bytes(full_label(config.username@, name@), MAX_NAME_LEN as int),
            exe@,
            name@,
            schedule_xml@,
            config.log_dir@,
        ),
{
    let label = plist_label(config, name);
    let logs = config.log_dir.as_str();
    let out_log = join_path(logs, name.to_owned().concat(".stdout.log").as_str());
    let err_log = join_path(logs, name.to_owned().concat(".stderr.log").as_str());
    let mut out = PLIST_HEAD.to_owned();
    out.append(xml_escape(label.as_str()).as_str());
    out.append(PLIST_PROGRAM);
    out.append(xml_escape(exe).as_str());
    out.append(PLIST_ARGUMENT);
    out.append(xml_escape(name).as_str());
    out.append(PLIST_ENVIRONMENT);
    out.append(schedule_xml);
    out.append(PLIST_STDOUT);
    out.append(xml_escape(out_log.as_str()).as_str());
    out.append(PLIST_STDERR);
    out.append(xml_escape(err_log.as_str()).as_str());
    out.append(PLIST_TAIL);
    out
}

/// The full label of an agent, part by part: the application's domain, the user as a domain label,
/// and the agent's name as it is.
pub proof fn law_label_parts(username: Seq<char>, name: Seq<char>)
    ensures
        !name.contains('.') ==> pieces(full_label(username, name), '.') == seq![
            "net"@,
            "nausicaea"@,
            "serpula"@,
            domain_label(username),
            name,
        ],
        full_label(username, name) == full_label(username, Seq::empty()) + name,
{
    let dot = seq!['.'];
    let user = domain_label(username);
    reveal_strlit(".");
    reveal_strlit("net");
    reveal_strlit("nausicaea");
    reveal_strlit("serpula");
    assert("."@ =~= dot);
    law_result_is_domain_label(username);
    assert forall|i: int| 0 <= i < user.len() implies user[i] != '.' by {
        assert(is_alphanumeric(user[i]) || user[i] == '-');
    }
    assert(!user.contains('.'));
    let d = user + dot + name;
    let c = "serpula"@ + dot + d;
    let b = "nausicaea"@ + dot + c;
    let a = "net"@ + dot + b;
    assert(full_label(username, name) =~= a);
    assert(full_label(username, Seq::empty()) + name =~= a);
    lemma_first_piece("net"@, '.', b);
    lemma_first_piece("nausicaea"@, '.', c);
    lemma_first_piece("serpula"@, '.', d);
    lemma_first_piece(user, '.', name);
    if !name.contains('.') {
        lemma_one_piece(name, '.');
        assert(pieces(a, '.') =~= seq!["net"@, "nausicaea"@, "serpula"@, user, name]);
    }
}

} // verus!

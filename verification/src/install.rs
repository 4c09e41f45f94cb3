//! Installing the launchd agents.

use vstd::prelude::*;
use vstd::utf8::is_ascii_chars;
use crate::app::{default_command, proxied};
use crate::config::{Config, DOMAIN, SUBDOMAIN, TLD};
use crate::label::{domain_label, law_result_is_domain_label};
use crate::launchd::{
    calendar_text, full_label, interval_text, law_ascii_name_has_label, law_label_parts,
    plist_document, plist_label, plist_text, schedule_calendar, schedule_interval, MAX_NAME_LEN,
};
use crate::path::{join_path, joined};
use crate::plist::{
    array_value, has_key, integer_value, law_calendar_reads_back, law_interval_reads_back,
    law_plist_reads_back, law_plist_runs_in_background, runs_in_background, string_value,
};
use crate::text::{at_most, pieces, texts};

verus! {

/// The directory below the home directory that holds the directory of the user's agents.
pub const AGENTS_PARENT_DIR: &'static str = "Library";

/// The name of the directory of the user's agents.
pub const AGENTS_DIR: &'static str = "LaunchAgents";

/// The mode of an agent's property list.
pub const AGENT_MODE: u32 = 0o644;

/// The directory of the agents of the user with the home directory.
pub open spec fn agents_folder(home: Seq<char>) -> Seq<char> {
    joined(joined(home, AGENTS_PARENT_DIR@), AGENTS_DIR@)
}

/// The file of the user's agent of the given name, which is named by the agent's label.
pub open spec fn agent_path(home: Seq<char>, username: Seq<char>, name: Seq<char>) -> Seq<char> {
    joined(
        agents_folder(home),
        at_most(full_label(username, name), MAX_NAME_LEN as int) + ".plist"@,
    )
}

/// The label of the user's agent of the given name.
pub open spec fn agent_label(username: Seq<char>, name: Seq<char>) -> Seq<char> {
    at_most(full_label(username, name), MAX_NAME_LEN as int)
}

/// An agent to be installed: a file to be written.
#[derive(Debug)]
pub struct Agent {
    pub path: String,
    /// What the file holds.
    pub document: String,
    /// The mode to be set on the file.
    pub mode: u32,
}

impl Agent {
    /// The agent runs the program with the name as its one argument, on the schedule. Its file is
    /// where launchd looks for the user's agents, and everyone can read it.
    pub open spec fn runs(
        self,
        config: Config,
        exe: Seq<char>,
        name: Seq<char>,
        schedule: Seq<char>,
    ) -> bool {
        let label = at_most(full_label(config.username@, name), MAX_NAME_LEN as int);
        &&& self.path@ == agent_path(config.home_dir@, config.username@, name)
        &&& self.document@ == plist_text(label, exe, name, schedule, config.log_dir@)
        &&& self.mode == AGENT_MODE
    }
}

/// The directory of the user's agents.
pub fn agents_dir(config: &Config) -> (out: String)
    ensures
        out@ == agents_folder(config.home_dir@),
{
    let parent = join_path(config.home_dir.as_str(), AGENTS_PARENT_DIR);
    join_path(parent.as_str(), AGENTS_DIR)
}

fn agent(config: &Config, exe: &str, name: &str, schedule: &str) -> (out: Agent)
    requires
        is_ascii_chars(name@),
    ensures
        out.runs(*config, exe@, name@, schedule@),
{
    proof {
        law_ascii_name_has_label(config.username@, name@);
    }
    let file_name = plist_label(config, name).concat(".plist");
    Agent {
        path: join_path(agents_dir(config).as_str(), file_name.as_str()),
        document: plist_document(config, exe, name, schedule),
        mode: AGENT_MODE,
    }
}

/// The agents of the program: an hourly backup, a check every Sunday at 03:30, and a daily cleanup
/// at 02:00.
pub fn cmd_install(config: &Config, exe: &str) -> (agents: Vec<Agent>)
    ensures
        agents@.len() == 3,
        agents@[0].runs(*config, exe@, "backup"@, interval_text(3600)),
        agents@[1].runs(*config, exe@, "check"@, calendar_text(Some(0), 3, 30)),
        agents@[2].runs(*config, exe@, "forget"@, calendar_text(None, 2, 0)),
        array_value(agents@[0].document@, "ProgramArguments"@) == seq![
            Some(exe@),
            Some("backup"@),
        ],
        array_value(agents@[1].document@, "ProgramArguments"@) == seq![Some(exe@), Some("check"@)],
        array_value(agents@[2].document@, "ProgramArguments"@) == seq![
            Some(exe@),
            Some("forget"@),
        ],
        integer_value(agents@[0].document@, "StartInterval"@) == Some(3600int),
        integer_value(agents@[1].document@, "Weekday"@) == Some(0int),
        integer_value(agents@[1].document@, "Hour"@) == Some(3int),
        integer_value(agents@[1].document@, "Minute"@) == Some(30int),
        !has_key(agents@[2].document@, "Weekday"@),
        integer_value(agents@[2].document@, "Hour"@) == Some(2int),
        integer_value(agents@[2].document@, "Minute"@) == Some(0int),
{
    proof {
        reveal_strlit("backup");
        reveal_strlit("check");
        reveal_strlit("forget");
    }
    let mut agents: Vec<Agent> = Vec::new();
    agents.push(agent(config, exe, "backup", schedule_interval(3600).as_str()));
    agents.push(agent(config, exe, "check", schedule_calendar(Some(0), 3, 30).as_str()));
    agents.push(agent(config, exe, "forget", schedule_calendar(None, 2, 0).as_str()));
    proof {
        let hourly = interval_text(3600);
        let weekly = calendar_text(Some(0), 3, 30);
        let daily = calendar_text(None, 2, 0);
        let logs = config.log_dir@;
        let a = agent_label(config.username@, "backup"@);
        let b = agent_label(config.username@, "check"@);
        let c = agent_label(config.username@, "forget"@);
        law_agent_reads_back(agents@[0], *config, exe@, "backup"@, hourly);
        law_agent_reads_back(agents@[1], *config, exe@, "check"@, weekly);
        law_agent_reads_back(agents@[2], *config, exe@, "forget"@, daily);
        law_interval_reads_back(a, exe@, "backup"@, 3600, logs);
        law_calendar_reads_back(b, exe@, "check"@, Some(0), (3, 30), logs);
        law_calendar_reads_back(c, exe@, "forget"@, None, (2, 0), logs);
    }
    agents
}

/// What the user is told after the agents were installed, line by line.
pub open spec fn closing_words(secrets_path: Seq<char>) -> Seq<Seq<char>> {
    seq![
        Seq::empty(),
        "Secrets file: "@ + secrets_path,
        "Fill in RESTIC_REPOSITORY, RESTIC_PASSWORD, AWS_ACCESS_KEY_ID and"@,
        "AWS_SECRET_ACCESS_KEY there before the next scheduled run."@,
        Seq::empty(),
    ]
}

/// Words what the user is told after the agents were installed.
pub fn closing_notes(config: &Config) -> (out: Vec<String>)
    ensures
        texts(out@) == closing_words(config.secrets_path@),
{
    let mut out: Vec<String> = Vec::new();
    out.push(String::new());
    out.push("Secrets file: ".to_owned().concat(config.secrets_path.as_str()));
    out.push("Fill in RESTIC_REPOSITORY, RESTIC_PASSWORD, AWS_ACCESS_KEY_ID and".to_owned());
    out.push("AWS_SECRET_ACCESS_KEY there before the next scheduled run.".to_owned());
    out.push(String::new());
    proof {
        assert(texts(out@) =~= closing_words(config.secrets_path@));
    }
    out
}

/// The argument that an agent gives the program has default arguments for restic, and these are
/// what restic is called with.
pub proof fn law_agents_run_default_commands(config: Config, name: Seq<char>)
    requires
        name == "backup"@ || name == "check"@ || name == "forget"@,
    ensures
        default_command(config, name) == Some(proxied(config, seq![name])),
{
    let defaults = default_command(config, name)->0;
    assert(defaults + seq![name].skip(1) =~= defaults);
}

/// The labels of the agents are never cut, so different agents have different labels, and files of
/// their own in the directory of the user's agents.
pub proof fn law_agent_labels_differ(
    home: Seq<char>,
    username: Seq<char>,
    a: Seq<char>,
    b: Seq<char>,
)
    requires
        a == "backup"@ || a == "check"@ || a == "forget"@,
        b == "backup"@ || b == "check"@ || b == "forget"@,
    ensures
        at_most(full_label(username, a), MAX_NAME_LEN as int) == full_label(username, a),
        full_label(username, a) == full_label(username, b) <==> a == b,
        agent_path(home, username, a) == agent_path(home, username, b) <==> a == b,
        agents_folder(home).is_prefix_of(agent_path(home, username, a)),
{
    reveal_strlit("net");
    reveal_strlit("nausicaea");
    reveal_strlit("serpula");
    reveal_strlit(".");
    reveal_strlit("backup");
    reveal_strlit("check");
    reveal_strlit("forget");
    law_result_is_domain_label(username);
    let head = TLD@ + "."@ + DOMAIN@ + "."@ + SUBDOMAIN@ + "."@ + domain_label(username) + "."@;
    assert(full_label(username, a) == head + a);
    assert(full_label(username, b) == head + b);
    if head + a == head + b {
        assert((head + a).skip(head.len() as int) =~= a);
        assert((head + b).skip(head.len() as int) =~= b);
    }
    let folder = agents_folder(home);
    let base = if folder.len() == 0 || folder.last() == '/' {
        folder
    } else {
        folder.push('/')
    };
    let one = head + a + ".plist"@;
    let other = head + b + ".plist"@;
    assert(one[0] == 'n' && other[0] == 'n');
    assert(agent_path(home, username, a) == base + one);
    assert(agent_path(home, username, b) == base + other);
    assert(folder =~= (base + one).subrange(0, folder.len() as int));
    if base + one == base + other {
        assert((base + one).skip(base.len() as int) =~= one);
        assert((base + other).skip(base.len() as int) =~= other);
        let n = ".plist"@.len();
        assert(one.take(one.len() - n) =~= head + a);
        assert(other.take(other.len() - n) =~= head + b);
    }
}

/// The file of an agent reads back as a property list with the agent's label, and with the program
/// and the agent's name as its arguments. It stands in the directory where launchd looks for the
/// user's agents, under its label, with mode 0644.
pub proof fn law_agent_reads_back(
    agent: Agent,
    config: Config,
    exe: Seq<char>,
    name: Seq<char>,
    schedule: Seq<char>,
)
    requires
        agent.runs(config, exe, name, schedule),
    ensures
        ({
            let label = agent_label(config.username@, name);
            let library = joined(config.home_dir@, "Library"@);
            &&& string_value(agent.document@, "Label"@) == Some(label)
            &&& array_value(agent.document@, "ProgramArguments"@) == seq![Some(exe), Some(name)]
            &&& agent.path@ == joined(joined(library, "LaunchAgents"@), label + ".plist"@)
            &&& agent.mode == 0o644
        }),
        !has_key(schedule, "RunAtLoad"@) && !has_key(schedule, "StandardOutPath"@) && !has_key(
            schedule,
            "StandardErrorPath"@,
        ) && !has_key(schedule, "ProcessType"@) && !has_key(schedule, "LowPriorityIO"@)
            ==> runs_in_background(agent.document@, name, config.log_dir@),
{
    let label = agent_label(config.username@, name);
    law_plist_reads_back(label, exe, name, schedule, config.log_dir@);
    if !has_key(schedule, "RunAtLoad"@) && !has_key(schedule, "StandardOutPath"@) && !has_key(
        schedule,
        "StandardErrorPath"@,
    ) && !has_key(schedule, "ProcessType"@) && !has_key(schedule, "LowPriorityIO"@) {
        law_plist_runs_in_background(label, exe, name, schedule, config.log_dir@);
    }
}

/// The label of an agent, part by part, up to the longest label.
pub proof fn law_agent_label_parts(username: Seq<char>, name: Seq<char>)
    requires
        !name.contains('.'),
        full_label(username, name).len() <= 255,
    ensures
        pieces(agent_label(username, name), '.') == seq![
            "net"@,
            "nausicaea"@,
            "serpula"@,
            domain_label(username),
            name,
        ],
{
    law_label_parts(username, name);
}

/// What the user is told names the secrets file in full, behind `Secrets file: `, on a line of its
/// own between a blank line and the two lines on what to fill in.
pub proof fn law_closing_words_name_file(secrets_path: Seq<char>)
    ensures
        ({
            let words = closing_words(secrets_path);
            let note = "Secrets file: "@;
            &&& words.len() == 5
            &&& words[0].len() == 0
            &&& note.is_prefix_of(words[1])
            &&& words[1].skip(note.len() as int) == secrets_path
            &&& words[2] == "Fill in RESTIC_REPOSITORY, RESTIC_PASSWORD, AWS_ACCESS_KEY_ID and"@
            &&& words[3] == "AWS_SECRET_ACCESS_KEY there before the next scheduled run."@
            &&& words[4].len() == 0
        }),
{
    let words = closing_words(secrets_path);
    let note = "Secrets file: "@;
    assert(note =~= words[1].subrange(0, note.len() as int));
    assert(words[1].skip(note.len() as int) =~= secrets_path);
}

} // verus!

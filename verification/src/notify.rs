//! Failure notifications through ntfy.

use vstd::prelude::*;
use crate::config::Config;
use crate::text::{lemma_strip_back_shape, str_of, strip_back, trim_end, Pattern};

verus! {

/// How urgent a notification is.
#[derive(Debug, Clone, Copy, PartialEq, Eq, Structural, Hash)]
pub enum Priority {
    /// Really long vibration bursts, default notification sound with a pop-over notification.
    Max,
    /// Long vibration burst, default notification sound with a pop-over notification.
    High,
    /// Short default vibration and sound. Default notification behavior.
    Default,
    /// No vibration or sound. Notification will not visibly show up until notification drawer is
    /// pulled down.
    Low,
    /// No vibration or sound. The notification will be under the fold in "Other notifications".
    Min,
}

impl Default for Priority {
    fn default() -> (out: Priority)
        ensures
            out == Priority::Default,
    {
        Priority::Default
    }
}

impl Priority {
    /// The number that ntfy gives the priority, 5 for the most urgent.
    pub open spec fn level(self) -> usize {
        match self {
            Priority::Max => 5,
            Priority::High => 4,
            Priority::Default => 3,
            Priority::Low => 2,
            Priority::Min => 1,
        }
    }

    /// The word that ntfy gives the priority.
    pub open spec fn word(self) -> Seq<char> {
        match self {
            Priority::Max => "max"@,
            Priority::High => "high"@,
            Priority::Default => "default"@,
            Priority::Low => "low"@,
            Priority::Min => "min"@,
        }
    }

    /// The word that ntfy gives the priority.
    pub fn to_string(&self) -> (out: String)
        ensures
            out@ == self.word(),
    {
        match self {
            Priority::Max => "max".to_owned(),
            Priority::High => "high".to_owned(),
            Priority::Default => "default".to_owned(),
            Priority::Low => "low".to_owned(),
            Priority::Min => "min".to_owned(),
        }
    }
}

impl From<Priority> for usize {
    fn from(val: Priority) -> (out: usize) {
        match val {
            Priority::Max => 5,
            Priority::High => 4,
            Priority::Default => 3,
            Priority::Low => 2,
            Priority::Min => 1,
        }
    }
}

impl vstd::std_specs::convert::FromSpecImpl<Priority> for usize {
    open spec fn obeys_from_spec() -> bool {
        true
    }

    open spec fn from_spec(val: Priority) -> usize {
        val.level()
    }
}

/// Levels and words tell priorities apart.
pub proof fn law_priorities_are_told_apart(a: Priority, b: Priority)
    ensures
        1 <= a.level() <= 5,
        a.level() == b.level() <==> a == b,
        a.word() == b.word() <==> a == b,
{
    reveal_strlit("max");
    reveal_strlit("high");
    reveal_strlit("default");
    reveal_strlit("low");
    reveal_strlit("min");
    if a != b {
        assert(a.word().len() != b.word().len() || a.word()[1] != b.word()[1] || a.word()[0]
            != b.word()[0]);
    }
}

/// A notification to be posted.
#[derive(Debug)]
pub struct Notification {
    /// Where to post it.
    pub url: String,
    /// The header `X-Title`.
    pub title: String,
    /// The header `X-Priority`.
    pub priority: Priority,
    pub message: String,
}

/// The address of a topic: the server without trailing slashes, a slash, the topic.
pub open spec fn topic_url(server: Seq<char>, topic: Seq<char>) -> Seq<char> {
    strip_back(server, Pattern::Exactly('/')) + "/"@ + topic
}

/// The server's part of the address does not end with a slash, so exactly one slash stands before
/// a topic that does not start with one.
pub proof fn law_one_slash_before_topic(server: Seq<char>, topic: Seq<char>)
    ensures
        ({
            let url = topic_url(server, topic);
            let at = url.len() - topic.len() - 1;
            &&& url.skip(at + 1) == topic
            &&& at >= 0
            &&& url[at] == '/'
            &&& at > 0 ==> url[at - 1] != '/'
            &&& url.take(at).is_prefix_of(server)
        }),
{
    reveal_strlit("/");
    let k = lemma_strip_back_shape(server, Pattern::Exactly('/'));
    let url = topic_url(server, topic);
    let at = url.len() - topic.len() - 1;
    assert(url.skip(at + 1) =~= topic);
    assert(url.take(at) =~= server.take(k));
}

/// The title of a failure notification.
pub open spec fn failure_title(subcommand: Seq<char>, hostname: Seq<char>) -> Seq<char> {
    "restic-backup: "@ + subcommand + " failed on "@ + hostname
}

impl Notification {
    /// The notification tells of the failed subcommand, on the topic's address.
    pub open spec fn tells(
        self,
        config: Config,
        priority: Priority,
        topic: Seq<char>,
        subcommand: Seq<char>,
        message: Seq<char>,
    ) -> bool {
        &&& self.url@ == topic_url(config.ntfy_server@, topic)
        &&& self.title@ == failure_title(subcommand, config.hostname@)
        &&& self.priority == priority
        &&& self.message@ == message
    }
}

/// The notification that a subcommand failed.
pub fn failure_notification(
    config: &Config,
    priority: Priority,
    topic: &str,
    subcommand: &str,
    message: &str,
) -> (out: Notification)
    ensures
        out.tells(*config, priority, topic@, subcommand@, message@),
{
    let server = trim_end(config.ntfy_server.as_str(), &Pattern::Exactly('/'));
    let url = server.to_owned().concat("/").concat(topic);
    let title = "restic-backup: ".to_owned().concat(subcommand).concat(" failed on ").concat(
        config.hostname.as_str(),
    );
    Notification { url, title, priority, message: message.to_owned() }
}

/// The notification that a subcommand failed, with default priority; none where the topic is not
/// known.
pub open spec fn is_default_notification(
    config: Config,
    topic: Option<Seq<char>>,
    subcommand: Seq<char>,
    message: Seq<char>,
    out: Option<Notification>,
) -> bool {
    match topic {
        Some(t) => out matches Some(n) && n.tells(
            config,
            Priority::Default,
            t,
            subcommand,
            message,
        ),
        None => out is None,
    }
}

/// The user is notified exactly where the topic is known, in full and with default priority.
pub proof fn law_known_topic_is_notified(
    config: Config,
    topic: Option<Seq<char>>,
    subcommand: Seq<char>,
    message: Seq<char>,
    out: Option<Notification>,
)
    requires
        is_default_notification(config, topic, subcommand, message, out),
    ensures
        out is Some <==> topic is Some,
        out matches Some(n) ==> n.priority == Priority::Default && n.message@ == message && n.url@
            == topic_url(config.ntfy_server@, topic->0),
{
}

/// The notification that a subcommand failed, with default priority; none where the topic is not
/// known.
pub fn notify_failure(
    config: &Config,
    topic: Option<&str>,
    subcommand: &str,
    message: &str,
) -> (out: Option<Notification>)
    ensures
        is_default_notification(*config, str_of(topic), subcommand@, message@, out),
{
    match topic {
        Some(t) => Some(failure_notification(config, Priority::default(), t, subcommand, message)),
        None => None,
    }
}

/// `http::StatusCode::is_success`, on the status code that `http::StatusCode::from_u16` makes of a
/// number: the codes from 200 to 299 are successes. A number that is no status code (below 100 or
/// above 999) is none.
#[verifier::external_body]
fn is_success_status(status: u16) -> (yes: bool)
    ensures
        yes == (200 <= status <= 299),
{
    match ureq::http::StatusCode::from_u16(status) {
        Ok(code) => code.is_success(),
        Err(_) => false,
    }
}

/// What became of a notification.
#[derive(Debug)]
pub enum Delivery {
    /// The server accepted it.
    Sent,
    /// The server answered with another status.
    Refused(u16),
    /// It could not be posted; the reason as the client words it.
    Failed(String),
}

/// The judgement on the posting of a notification.
pub open spec fn is_judgement(outcome: Result<u16, String>, out: Delivery) -> bool {
    match outcome {
        Ok(status) => if 200 <= status <= 299 {
            out is Sent
        } else {
            out matches Delivery::Refused(s) && s == status
        },
        Err(reason) => out matches Delivery::Failed(r) && r@ == reason@,
    }
}

/// Judges the posting of a notification by the status of the answer, or by the reason why there
/// was none.
pub fn judge_delivery(outcome: Result<u16, String>) -> (out: Delivery)
    ensures
        is_judgement(outcome, out),
{
    match outcome {
        Ok(status) => if is_success_status(status) {
            Delivery::Sent
        } else {
            Delivery::Refused(status)
        },
        Err(reason) => Delivery::Failed(reason),
    }
}

/// A server that does not end with a slash, a slash and the topic make up the address, character
/// for character; slashes at the end of the server change nothing.
pub proof fn law_topic_address(server: Seq<char>, topic: Seq<char>)
    ensures
        server.len() == 0 || server.last() != '/' ==> topic_url(server, topic) == server.push('/')
            + topic,
        topic_url(server.push('/'), topic) == topic_url(server, topic),
{
    reveal_strlit("/");
    assert(server.push('/').drop_last() =~= server);
    if server.len() == 0 || server.last() != '/' {
        assert(topic_url(server, topic) =~= server.push('/') + topic);
    }
}

/// A failure notification goes to the topic's address with the given priority. Its message is the
/// one that was given, in full, and its title names the subcommand and the host.
pub proof fn law_notification_tells_everything(
    n: Notification,
    config: Config,
    priority: Priority,
    topic: Seq<char>,
    subcommand: Seq<char>,
    message: Seq<char>,
)
    requires
        n.tells(config, priority, topic, subcommand, message),
    ensures
        n.url@ == topic_url(config.ntfy_server@, topic),
        n.priority == priority,
        n.message@ == message,
        ({
            let title = n.title@;
            let name = "restic-backup: "@.len() as int;
            let host = name + subcommand.len() + " failed on "@.len();
            &&& title.take(name) == "restic-backup: "@
            &&& title.subrange(name, name + subcommand.len()) == subcommand
            &&& title.subrange(name + subcommand.len(), host) == " failed on "@
            &&& title.skip(host) == config.hostname@
        }),
{
    let title = n.title@;
    let name = "restic-backup: "@.len() as int;
    let host = name + subcommand.len() + " failed on "@.len();
    assert(title.take(name) =~= "restic-backup: "@);
    assert(title.subrange(name, name + subcommand.len()) =~= subcommand);
    assert(title.subrange(name + subcommand.len(), host) =~= " failed on "@);
    assert(title.skip(host) =~= config.hostname@);
}

/// The words and levels of the priorities, as ntfy documents them.
pub proof fn law_priority_names(p: Priority)
    ensures
        p.word() == match p {
            Priority::Max => seq!['m', 'a', 'x'],
            Priority::High => seq!['h', 'i', 'g', 'h'],
            Priority::Default => seq!['d', 'e', 'f', 'a', 'u', 'l', 't'],
            Priority::Low => seq!['l', 'o', 'w'],
            Priority::Min => seq!['m', 'i', 'n'],
        },
        p.level() + (match p {
            Priority::Max => 0int,
            Priority::High => 1int,
            Priority::Default => 2int,
            Priority::Low => 3int,
            Priority::Min => 4int,
        }) == 5,
{
    reveal_strlit("max");
    reveal_strlit("high");
    reveal_strlit("default");
    reveal_strlit("low");
    reveal_strlit("min");
    match p {
        Priority::Max => assert(p.word() =~= seq!['m', 'a', 'x']),
        Priority::High => assert(p.word() =~= seq!['h', 'i', 'g', 'h']),
        Priority::Default => assert(p.word() =~= seq!['d', 'e', 'f', 'a', 'u', 'l', 't']),
        Priority::Low => assert(p.word() =~= seq!['l', 'o', 'w']),
        Priority::Min => assert(p.word() =~= seq!['m', 'i', 'n']),
    }
}

/// A notification counts as sent exactly where the server answered with a status of 200 to 299;
/// any other status, and the reason why there was no answer, is reported as it is.
pub proof fn law_sent_means_success(outcome: Result<u16, String>, out: Delivery)
    requires
        is_judgement(outcome, out),
    ensures
        out is Sent <==> (outcome matches Ok(status) && status / 100 == 2),
        out matches Delivery::Refused(s) ==> outcome == Ok::<u16, String>(s),
        out matches Delivery::Failed(r) ==> (outcome matches Err(reason) && r@ == reason@),
{
}

} // verus!

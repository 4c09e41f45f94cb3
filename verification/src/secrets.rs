//! The secrets file and what is made of it: restic's environment and the ntfy topic.

use vstd::prelude::*;
use crate::config::{Config, PRIVATE_DIR_MODE};
use crate::env_file::{
    all_storable, is_storable, law_added_line, law_empty_text, law_written_secrets_are_read_back,
    parsed, serialized, with_line,
};
use crate::env_map::{EnvMap, Entries};
use crate::label::{
    domain_label, is_alphanumeric, law_result_is_domain_label, sanitize_as_domain_label,
};
use crate::text::{
    digit_value, hexadecimal, is_white_space, law_hexadecimal_reads_back, law_trimmed,
    lemma_strip_back_shape, lemma_strip_fixed, lemma_strip_front_shape, lemma_strip_shape,
    print_hexadecimal, str_of, text_of, trim, trimmed, Pattern,
};

pub use crate::env_file::{parse_secrets_content, serialize_secrets};

verus! {

/// The entry that holds the ntfy topic.
pub const NTFY_TOPIC: &'static str = "NTFY_TOPIC";

/// The mode of the secrets file.
pub const SECRETS_MODE: u32 = 0o600;

/// A file to be written for the user's eyes only.
#[derive(Debug)]
pub struct PrivateFile {
    pub path: String,
    pub contents: String,
    /// The mode of the file.
    pub mode: u32,
    /// The mode of its directory.
    pub dir_mode: u32,
}

impl PrivateFile {
    /// The file at the path holds the map's entries, and only the user can read it or list its
    /// directory.
    pub open spec fn stores(self, path: Seq<char>, m: Entries) -> bool {
        &&& self.path@ == path
        &&& self.contents@ == serialized(m)
        &&& self.mode == SECRETS_MODE
        &&& self.dir_mode == PRIVATE_DIR_MODE
    }
}

/// The entries of the secrets file, given its contents; no entries where there is no file.
pub open spec fn file_entries(content: Option<Seq<char>>) -> Entries {
    match content {
        Some(text) => parsed(text),
        None => Map::empty(),
    }
}

/// A file that was written to store entries gives these back when it is read, where the format can
/// hold them; a missing file gives what an empty one does.
pub proof fn law_file_gives_back_entries(file: PrivateFile, path: Seq<char>, m: Entries)
    requires
        file.stores(path, m),
        m.dom().finite(),
        all_storable(m),
    ensures
        file_entries(Some(file.contents@)) == m,
        file_entries(None) == Map::<Seq<char>, Seq<char>>::empty(),
        file_entries(Some(Seq::empty())) == Map::<Seq<char>, Seq<char>>::empty(),
{
    law_written_secrets_are_read_back(m);
    law_empty_text(Seq::empty());
}

/// Whatever a file holds, its entries are those of its lines; see the laws on
/// [`parsed`](crate::env_file::parsed) for what these are.
pub proof fn law_file_is_read_whole(content: Seq<char>, line: Seq<char>)
    requires
        !line.contains('\n'),
    ensures
        file_entries(Some(content)) == parsed(content),
        file_entries(Some(content + seq!['\n'] + line)) == with_line(
            file_entries(Some(content)),
            line,
        ),
{
    law_added_line(content, line);
}

/// Reads the entries of the secrets file, given its contents; no entries where there is no file.
pub fn load_secrets(content: Option<&str>) -> (map: EnvMap)
    ensures
        map@ == file_entries(str_of(content)),
{
    match content {
        Some(text) => parse_secrets_content(text),
        None => EnvMap::new(),
    }
}

/// The secrets file at the path that holds the map's entries.
pub fn save_secrets(path: &str, map: &EnvMap) -> (file: PrivateFile)
    ensures
        file.stores(path@, map@),
{
    PrivateFile {
        path: path.to_owned(),
        contents: serialize_secrets(map),
        mode: SECRETS_MODE,
        dir_mode: PRIVATE_DIR_MODE,
    }
}

/// The entries that a user has to fill in, without values.
pub open spec fn scaffold() -> Entries {
    Map::empty().insert("RESTIC_REPOSITORY"@, Seq::empty()).insert(
        "RESTIC_PASSWORD"@,
        Seq::empty(),
    ).insert("AWS_ACCESS_KEY_ID"@, Seq::empty()).insert("AWS_SECRET_ACCESS_KEY"@, Seq::empty())
}

/// The secrets file to start from, unless there is one already.
pub fn ensure_secrets_scaffold(config: &Config, exists: bool) -> (file: Option<PrivateFile>)
    ensures
        match file {
            Some(f) => !exists && f.stores(config.secrets_path@, scaffold()),
            None => exists,
        },
{
    if exists {
        return None;
    }
    let mut map = EnvMap::new();
    map.insert("RESTIC_REPOSITORY".to_owned(), String::new());
    map.insert("RESTIC_PASSWORD".to_owned(), String::new());
    map.insert("AWS_ACCESS_KEY_ID".to_owned(), String::new());
    map.insert("AWS_SECRET_ACCESS_KEY".to_owned(), String::new());
    Some(save_secrets(config.secrets_path.as_str(), &map))
}

/// The topic made of random bytes: hexadecimal, behind the prefix as a domain label.
pub open spec fn random_topic(prefix: Option<Seq<char>>, random: Seq<u8>) -> Seq<char> {
    match prefix {
        Some(p) => domain_label(p) + seq!['-'] + hexadecimal(random),
        None => hexadecimal(random),
    }
}

/// Makes a topic of random bytes.
pub fn generate_topic(prefix: Option<&str>, random: &[u8; 24]) -> (topic: String)
    ensures
        topic@ == random_topic(str_of(prefix), random@),
{
    let hex = print_hexadecimal(random);
    match prefix {
        Some(p) => {
            let mut topic = sanitize_as_domain_label(p);
            topic.push('-');
            topic.append(hex.as_str());
            proof {
                assert(topic@ =~= domain_label(p@) + seq!['-'] + hex@);
            }
            topic
        },
        None => hex,
    }
}

/// What is known on the way to the ntfy topic.
#[derive(Debug)]
pub enum TopicSource {
    /// The variable `NTFY_TOPIC`.
    Variable(Option<String>),
    /// The entries of the secrets file.
    Secrets(EnvMap),
    /// The entries of the secrets file, and bytes from the system's source of randomness.
    Random(EnvMap, [u8; 24]),
}

/// What to do next on the way to the ntfy topic.
#[derive(Debug)]
pub enum TopicStep {
    /// This is the topic.
    Use(String),
    /// Read the secrets file at this path.
    ReadSecrets(String),
    /// Draw random bytes, and hand the entries back with them.
    DrawRandom(EnvMap),
    /// Write the file; this is the topic from then on.
    Store { topic: String, file: PrivateFile },
}

/// Nothing but white space.
pub open spec fn is_blank(s: Seq<char>) -> bool {
    trimmed(s).len() == 0
}

/// The map has a value for the name that is not blank.
pub open spec fn has_value(m: Entries, name: Seq<char>) -> bool {
    m.contains_key(name) && !is_blank(m[name])
}

/// The next step on the way to the ntfy topic: the variable, trimmed, unless it is blank; else the
/// entry of the secrets file, unless it is blank; else a random topic, which is stored there.
pub open spec fn topic_step(config: Config, source: TopicSource, step: TopicStep) -> bool {
    match source {
        TopicSource::Variable(value) => if value is Some && !is_blank(value->0@) {
            step matches TopicStep::Use(topic) && topic@ == trimmed(value->0@)
        } else {
            step matches TopicStep::ReadSecrets(path) && path@ == config.secrets_path@
        },
        TopicSource::Secrets(secrets) => if has_value(secrets@, NTFY_TOPIC@) {
            step matches TopicStep::Use(topic) && topic@ == secrets@[NTFY_TOPIC@]
        } else {
            step matches TopicStep::DrawRandom(kept) && kept@ == secrets@
        },
        TopicSource::Random(secrets, random) => {
            &&& step matches TopicStep::Store { topic, file }
            &&& topic@ == random_topic(Some(config.ntfy_prefix@), random@)
            &&& file.stores(config.secrets_path@, secrets@.insert(NTFY_TOPIC@, topic@))
        },
    }
}

/// Takes the next step on the way to the ntfy topic.
pub fn get_ntfy_topic(config: &Config, source: TopicSource) -> (step: TopicStep)
    ensures
        topic_step(*config, source, step),
{
    match source {
        TopicSource::Variable(value) => match value {
            Some(v) => {
                let topic = trim(v.as_str());
                if topic.is_empty() {
                    TopicStep::ReadSecrets(config.secrets_path.clone())
                } else {
                    TopicStep::Use(topic.to_owned())
                }
            },
            None => TopicStep::ReadSecrets(config.secrets_path.clone()),
        },
        TopicSource::Secrets(secrets) => {
            let found = match secrets.get(NTFY_TOPIC) {
                Some(topic) => if trim(topic.as_str()).is_empty() {
                    None
                } else {
                    Some(topic.clone())
                },
                None => None,
            };
            match found {
                Some(topic) => TopicStep::Use(topic),
                None => TopicStep::DrawRandom(secrets),
            }
        },
        TopicSource::Random(secrets, random) => {
            let topic = generate_topic(Some(config.ntfy_prefix.as_str()), &random);
            let mut secrets = secrets;
            secrets.insert(NTFY_TOPIC.to_owned(), topic.clone());
            let file = save_secrets(config.secrets_path.as_str(), &secrets);
            TopicStep::Store { topic, file }
        },
    }
}

/// A required entry that the secrets file does not give a value.
#[derive(Debug)]
pub struct MissingSecret {
    pub name: String,
    pub secrets_path: String,
}

impl MissingSecret {
    pub open spec fn text(self) -> Seq<char> {
        "missing "@ + self.name@ + " in secrets file "@ + self.secrets_path@
            + "; edit it and fill in the required values"@
    }

    pub fn message(&self) -> (out: String)
        ensures
            out@ == self.text(),
    {
        "missing ".to_owned().concat(self.name.as_str()).concat(" in secrets file ").concat(
            self.secrets_path.as_str(),
        ).concat("; edit it and fill in the required values")
    }
}

/// The `PATH` of restic where the caller has none.
pub const DEFAULT_PATH: &'static str = "/usr/local/bin:/opt/homebrew/bin:/usr/bin:/bin";

/// The entries that restic gets from the secrets file.
pub open spec fn is_forwarded(name: Seq<char>) -> bool {
    ||| name == "RESTIC_REPOSITORY"@
    ||| name == "RESTIC_PASSWORD"@
    ||| name == "AWS_ACCESS_KEY_ID"@
    ||| name == "AWS_SECRET_ACCESS_KEY"@
    ||| name == "AWS_DEFAULT_REGION"@
    ||| name == "AWS_SESSION_TOKEN"@
}

/// The forwarded entries that have a value.
pub open spec fn forwarded(secrets: Entries) -> Entries {
    Map::new(
        |name: Seq<char>| is_forwarded(name) && has_value(secrets, name),
        |name: Seq<char>| secrets[name],
    )
}

/// The environment of restic: the forwarded entries, its cache directory and a `PATH`.
pub open spec fn restic_env(
    secrets: Entries,
    cache_dir: Seq<char>,
    path: Option<Seq<char>>,
) -> Entries {
    forwarded(secrets).insert("RESTIC_CACHE_DIR"@, cache_dir).insert(
        "PATH"@,
        match path {
            Some(p) => p,
            None => DEFAULT_PATH@,
        },
    )
}

/// The map with the named entry of the secrets added, where that has a value.
spec fn with_forwarded(m: Entries, secrets: Entries, name: Seq<char>) -> Entries {
    if has_value(secrets, name) {
        m.insert(name, secrets[name])
    } else {
        m
    }
}

fn forward(env: &mut EnvMap, secrets: &EnvMap, name: &str)
    ensures
        final(env)@ == with_forwarded(old(env)@, secrets@, name@),
{
    match secrets.get(name) {
        Some(value) => {
            if !trim(value.as_str()).is_empty() {
                env.insert(name.to_owned(), value.clone());
            }
        },
        None => {},
    }
}

/// The environment of restic, or the first required entry, of the repository and the password,
/// that has no value.
pub open spec fn is_env_or_missing(
    config: Config,
    secrets: Entries,
    path: Option<Seq<char>>,
    out: Result<EnvMap, MissingSecret>,
) -> bool {
    match out {
        Ok(env) => {
            &&& has_value(secrets, "RESTIC_REPOSITORY"@)
            &&& has_value(secrets, "RESTIC_PASSWORD"@)
            &&& env@ == restic_env(secrets, config.cache_dir@, path)
        },
        Err(e) => {
            &&& e.secrets_path@ == config.secrets_path@
            &&& if has_value(secrets, "RESTIC_REPOSITORY"@) {
                e.name@ == "RESTIC_PASSWORD"@ && !has_value(secrets, "RESTIC_PASSWORD"@)
            } else {
                e.name@ == "RESTIC_REPOSITORY"@
            }
        },
    }
}

/// The environment of restic, or the first required entry, of the repository and the password,
/// that has no value.
pub fn build_restic_env(
    config: &Config,
    secrets: &EnvMap,
    path: Option<String>,
) -> (out: Result<EnvMap, MissingSecret>)
    ensures
        is_env_or_missing(*config, secrets@, text_of(path), out),
{
    let mut env = EnvMap::new();
    forward(&mut env, secrets, "RESTIC_REPOSITORY");
    forward(&mut env, secrets, "RESTIC_PASSWORD");
    forward(&mut env, secrets, "AWS_ACCESS_KEY_ID");
    forward(&mut env, secrets, "AWS_SECRET_ACCESS_KEY");
    forward(&mut env, secrets, "AWS_DEFAULT_REGION");
    forward(&mut env, secrets, "AWS_SESSION_TOKEN");
    proof {
        assert(env@ =~= forwarded(secrets@));
    }
    if !env.contains_key("RESTIC_REPOSITORY") {
        return Err(
            MissingSecret {
                name: "RESTIC_REPOSITORY".to_owned(),
                secrets_path: config.secrets_path.clone(),
            },
        );
    }
    if !env.contains_key("RESTIC_PASSWORD") {
        return Err(
            MissingSecret {
                name: "RESTIC_PASSWORD".to_owned(),
                secrets_path: config.secrets_path.clone(),
            },
        );
    }
    env.insert("RESTIC_CACHE_DIR".to_owned(), config.cache_dir.clone());
    let path = match path {
        Some(p) => p,
        None => DEFAULT_PATH.to_owned(),
    };
    env.insert("PATH".to_owned(), path);
    Ok(env)
}

/// Every hexadecimal digit is a lower-case letter or a digit, and every byte has two.
proof fn lemma_hexadecimal(bytes: Seq<u8>)
    ensures
        hexadecimal(bytes).len() == 2 * bytes.len(),
        forall|i: int|
            0 <= i < hexadecimal(bytes).len() ==> {
                let c = #[trigger] hexadecimal(bytes)[i];
                '0' <= c <= '9' || 'a' <= c <= 'f'
            },
    decreases bytes.len(),
{
    if bytes.len() > 0 {
        lemma_hexadecimal(bytes.drop_last());
    }
}

/// A random topic is the prefix as a domain label, a hyphen and two digits for each byte; it holds
/// letters, digits and hyphens only.
pub proof fn law_random_topic_form(prefix: Seq<char>, random: Seq<u8>)
    ensures
        ({
            let topic = random_topic(Some(prefix), random);
            &&& (domain_label(prefix) + seq!['-']).is_prefix_of(topic)
            &&& topic.len() == domain_label(prefix).len() + 1 + 2 * random.len()
            &&& forall|i: int|
                0 <= i < topic.len() ==> is_alphanumeric(#[trigger] topic[i]) || topic[i] == '-'
        }),
{
    let label = domain_label(prefix);
    let hex = hexadecimal(random);
    let topic = random_topic(Some(prefix), random);
    law_result_is_domain_label(prefix);
    lemma_hexadecimal(random);
    assert(label + seq!['-'] =~= topic.subrange(0, label.len() as int + 1));
    assert forall|i: int|
        0 <= i < topic.len() implies is_alphanumeric(#[trigger] topic[i]) || topic[i] == '-' by {
        if i < label.len() {
            assert(topic[i] == label[i]);
        } else if i > label.len() {
            assert(topic[i] == hex[i - label.len() - 1]);
        }
    }
}

/// A topic that was made up and stored is the topic that the secrets file gives from then on, and
/// the other entries are still there.
pub proof fn law_stored_topic_is_found(
    config: Config,
    secrets: EnvMap,
    random: [u8; 24],
    stored: TopicStep,
    later: EnvMap,
    step: TopicStep,
)
    requires
        secrets@.dom().finite(),
        all_storable(secrets@),
        topic_step(config, TopicSource::Random(secrets, random), stored),
        later@ == parsed(stored->file.contents@),
        topic_step(config, TopicSource::Secrets(later), step),
    ensures
        step matches TopicStep::Use(topic) && topic@ == stored->topic@,
        later@ == secrets@.insert(NTFY_TOPIC@, stored->topic@),
{
    let prefix = config.ntfy_prefix@;
    let topic = stored->topic@;
    let m = secrets@.insert(NTFY_TOPIC@, topic);
    law_random_topic_form(prefix, random@);
    law_result_is_domain_label(prefix);
    reveal_strlit("NTFY_TOPIC");
    assert forall|i: int| 0 <= i < topic.len() implies topic[i] != '\n' && !is_white_space(
        topic[i],
    ) by {
        assert(is_alphanumeric(topic[i]) || topic[i] == '-');
    }
    assert(!topic.contains('\n'));
    assert(is_storable(NTFY_TOPIC@, topic));
    assert(all_storable(m));
    law_written_secrets_are_read_back(m);
    lemma_strip_fixed(topic, Pattern::WhiteSpace);
}

/// The scaffold reads back as the four entries without values, which is not enough to run restic.
pub proof fn law_scaffold_is_not_enough()
    ensures
        parsed(serialized(scaffold())) == scaffold(),
        !has_value(scaffold(), "RESTIC_REPOSITORY"@),
        !has_value(scaffold(), "RESTIC_PASSWORD"@),
{
    reveal_strlit("RESTIC_REPOSITORY");
    reveal_strlit("RESTIC_PASSWORD");
    reveal_strlit("AWS_ACCESS_KEY_ID");
    reveal_strlit("AWS_SECRET_ACCESS_KEY");
    let none = Seq::<char>::empty();
    assert(is_storable("RESTIC_REPOSITORY"@, none));
    assert(is_storable("RESTIC_PASSWORD"@, none));
    assert(is_storable("AWS_ACCESS_KEY_ID"@, none));
    assert(is_storable("AWS_SECRET_ACCESS_KEY"@, none));
    assert(all_storable(scaffold()));
    law_written_secrets_are_read_back(scaffold());
    lemma_strip_fixed(none, Pattern::WhiteSpace);
}

/// Restic's environment holds its cache directory and a `PATH`, and beyond these only forwarded
/// entries, each with the value from the secrets file, which is not blank.
pub proof fn law_env_holds_nothing_else(
    secrets: Entries,
    cache_dir: Seq<char>,
    path: Option<Seq<char>>,
    name: Seq<char>,
)
    ensures
        ({
            let env = restic_env(secrets, cache_dir, path);
            &&& env.contains_key("RESTIC_CACHE_DIR"@)
            &&& env["RESTIC_CACHE_DIR"@] == cache_dir
            &&& env.contains_key("PATH"@)
            &&& env.contains_key(name) && name != "RESTIC_CACHE_DIR"@ && name != "PATH"@
                ==> is_forwarded(name) && secrets.contains_key(name) && env[name] == secrets[name]
                && !is_blank(env[name])
            &&& is_forwarded(name) && has_value(secrets, name) ==> env.contains_key(name)
                && env[name] == secrets[name]
        }),
{
    reveal_strlit("RESTIC_CACHE_DIR");
    reveal_strlit("PATH");
    reveal_strlit("RESTIC_REPOSITORY");
    reveal_strlit("RESTIC_PASSWORD");
    reveal_strlit("AWS_ACCESS_KEY_ID");
    reveal_strlit("AWS_SECRET_ACCESS_KEY");
    reveal_strlit("AWS_DEFAULT_REGION");
    reveal_strlit("AWS_SESSION_TOKEN");
    assert("RESTIC_CACHE_DIR"@.len() == 16 && "PATH"@.len() == 4);
    assert("AWS_DEFAULT_REGION"@.len() == 18 && "RESTIC_PASSWORD"@.len() == 15);
}

/// A topic that is used or stored is never blank.
pub proof fn law_topic_is_never_blank(config: Config, source: TopicSource, step: TopicStep)
    requires
        topic_step(config, source, step),
    ensures
        step matches TopicStep::Use(topic) ==> !is_blank(topic@),
        step matches TopicStep::Store { topic, file } ==> !is_blank(topic@),
{
    match source {
        TopicSource::Variable(value) => {
            if value is Some {
                let v = value->0@;
                lemma_strip_shape(v, Pattern::WhiteSpace);
                lemma_strip_fixed(trimmed(v), Pattern::WhiteSpace);
            }
        },
        TopicSource::Secrets(_) => {},
        TopicSource::Random(_, random) => {
            let prefix = config.ntfy_prefix@;
            let topic = random_topic(Some(prefix), random@);
            law_random_topic_form(prefix, random@);
            law_result_is_domain_label(prefix);
            assert(is_alphanumeric(topic[0]) || topic[0] == '-');
            assert(is_alphanumeric(topic.last()) || topic.last() == '-');
            lemma_strip_fixed(topic, Pattern::WhiteSpace);
        },
    }
}

/// The topic: the variable, trimmed, unless it is blank; else the entry of the secrets file, unless
/// it is blank; else a random one.
pub open spec fn ntfy_topic(
    prefix: Seq<char>,
    variable: Option<Seq<char>>,
    secrets: Entries,
    random: Seq<u8>,
) -> Seq<char> {
    if variable is Some && !is_blank(variable->0) {
        trimmed(variable->0)
    } else if has_value(secrets, NTFY_TOPIC@) {
        secrets[NTFY_TOPIC@]
    } else {
        random_topic(Some(prefix), random)
    }
}

/// The steps lead to the topic: the file is read exactly where the variable gives none, and random
/// bytes are drawn exactly where the file gives none either.
pub proof fn law_steps_lead_to_topic(
    config: Config,
    variable: Option<String>,
    secrets: EnvMap,
    kept: EnvMap,
    random: [u8; 24],
    first: TopicStep,
    second: TopicStep,
    third: TopicStep,
)
    requires
        topic_step(config, TopicSource::Variable(variable), first),
        topic_step(config, TopicSource::Secrets(secrets), second),
        second is DrawRandom ==> second == TopicStep::DrawRandom(kept),
        topic_step(config, TopicSource::Random(kept, random), third),
    ensures
        ({
            let topic = ntfy_topic(config.ntfy_prefix@, text_of(variable), secrets@, random@);
            match first {
                TopicStep::Use(t) => t@ == topic,
                TopicStep::ReadSecrets(_) => match second {
                    TopicStep::Use(t) => t@ == topic,
                    TopicStep::DrawRandom(_) => {
                        &&& third matches TopicStep::Store { topic: t, file }
                        &&& t@ == topic
                        &&& file.stores(config.secrets_path@, secrets@.insert(NTFY_TOPIC@, topic))
                    },
                    _ => false,
                },
                _ => false,
            }
        }),
{
}

/// A text is blank exactly where every character is white space.
proof fn lemma_blank(s: Seq<char>)
    ensures
        is_blank(s) <==> forall|i: int| 0 <= i < s.len() ==> is_white_space(#[trigger] s[i]),
{
    let ws = Pattern::WhiteSpace;
    let b = lemma_strip_shape(s, ws);
    if is_blank(s) {
        let k = lemma_strip_front_shape(s, ws);
        let j = lemma_strip_back_shape(s.skip(k), ws);
        assert(j == 0);
        assert(k == s.len()) by {
            if k < s.len() {
                assert(s.skip(k)[0] == s[k]);
                assert(ws.covers(s.skip(k)[0]));
            }
        }
    } else if forall|i: int| 0 <= i < s.len() ==> is_white_space(#[trigger] s[i]) {
        law_trimmed(s, 0, 0);
    }
}

/// An entry counts as given exactly where it is there and has a character that is not white space.
pub proof fn law_given_entry(m: Entries, name: Seq<char>)
    ensures
        has_value(m, name) <==> m.contains_key(name) && exists|i: int|
            0 <= i < m[name].len() && !is_white_space(#[trigger] m[name][i]),
{
    lemma_blank(m[name]);
}

/// The topic that the user set in the variable is used, from its first to its last character that
/// is not white space, character for character.
pub proof fn law_variable_is_used_as_it_is(
    config: Config,
    value: String,
    lo: int,
    hi: int,
    step: TopicStep,
)
    requires
        topic_step(config, TopicSource::Variable(Some(value)), step),
        0 <= lo < hi <= value@.len(),
        forall|i: int|
            0 <= i < lo || hi <= i < value@.len() ==> is_white_space(#[trigger] value@[i]),
        !is_white_space(value@[lo]),
        !is_white_space(value@[hi - 1]),
    ensures
        step matches TopicStep::Use(topic) && topic@ == value@.subrange(lo, hi),
        lo == 0 && hi == value@.len() ==> (step matches TopicStep::Use(topic) && topic@ == value@),
{
    law_trimmed(value@, lo, hi);
    assert(value@.subrange(0, value@.len() as int) =~= value@);
}

/// The secrets file is read where the variable is not set, or holds nothing but white space.
pub proof fn law_blank_variable_leads_to_file(
    config: Config,
    value: Option<String>,
    step: TopicStep,
)
    requires
        topic_step(config, TopicSource::Variable(value), step),
        value matches Some(v) ==> forall|i: int|
            0 <= i < v@.len() ==> is_white_space(#[trigger] v@[i]),
    ensures
        step matches TopicStep::ReadSecrets(path) && path@ == config.secrets_path@,
{
    if value is Some {
        lemma_blank(value->0@);
    }
}

/// The topic of the secrets file is used character for character where it has one that is not
/// white space; else random bytes are drawn, and all entries are kept.
pub proof fn law_stored_topic_is_used_as_it_is(config: Config, secrets: EnvMap, step: TopicStep)
    requires
        topic_step(config, TopicSource::Secrets(secrets), step),
    ensures
        ({
            let given = secrets@.contains_key("NTFY_TOPIC"@) && exists|i: int|
                0 <= i < secrets@["NTFY_TOPIC"@].len() && !is_white_space(
                    #[trigger] secrets@["NTFY_TOPIC"@][i],
                );
            if given {
                step matches TopicStep::Use(topic) && topic@ == secrets@["NTFY_TOPIC"@]
            } else {
                step matches TopicStep::DrawRandom(kept) && kept@ == secrets@
            }
        }),
{
    law_given_entry(secrets@, "NTFY_TOPIC"@);
}

/// A random topic spells out every byte that was drawn, so other bytes give another topic. It is
/// stored beside all other entries, where it was read from, for the user's eyes only.
pub proof fn law_random_topic_spells_bytes(
    config: Config,
    secrets: EnvMap,
    random: [u8; 24],
    step: TopicStep,
)
    requires
        topic_step(config, TopicSource::Random(secrets, random), step),
    ensures
        step is Store,
        ({
            let label = domain_label(config.ntfy_prefix@);
            let topic = step->topic@;
            let file = step->file;
            &&& topic.len() == label.len() + 49
            &&& topic.take(label.len() as int) == label
            &&& topic[label.len() as int] == '-'
            &&& forall|i: int|
                0 <= i < 24 ==> 16 * digit_value(topic[label.len() + 1 + 2 * i]) + digit_value(
                    topic[label.len() + 2 + 2 * i],
                ) == #[trigger] random@[i]
            &&& file.path@ == config.secrets_path@
            &&& file.mode == 0o600
            &&& file.dir_mode == 0o700
            &&& file.contents@ == serialized(secrets@.insert("NTFY_TOPIC"@, topic))
        }),
{
    let label = domain_label(config.ntfy_prefix@);
    let topic = step->topic@;
    let hex = hexadecimal(random@);
    law_random_topic_form(config.ntfy_prefix@, random@);
    assert(topic.take(label.len() as int) =~= label);
    assert forall|i: int| 0 <= i < 24 implies 16 * digit_value(topic[label.len() + 1 + 2 * i])
        + digit_value(topic[label.len() + 2 + 2 * i]) == #[trigger] random@[i] by {
        law_hexadecimal_reads_back(random@, i);
        assert(topic[label.len() + 1 + 2 * i] == hex[2 * i]);
        assert(topic[label.len() + 2 + 2 * i] == hex[2 * i + 1]);
    }
}

/// A secrets file that is written has the modes that keep others out, and reads back as what it was
/// to store, where the format can hold that.
pub proof fn law_private_file(file: PrivateFile, path: Seq<char>, m: Entries)
    requires
        file.stores(path, m),
        m.dom().finite(),
    ensures
        file.path@ == path,
        file.mode == 0o600,
        file.dir_mode == 0o700,
        all_storable(m) ==> parsed(file.contents@) == m,
{
    law_written_secrets_are_read_back(m);
}

/// The scaffold has the four names that a user has to fill in, and no others, without values.
pub proof fn law_scaffold_names(name: Seq<char>)
    ensures
        scaffold().contains_key(name) <==> name == "RESTIC_REPOSITORY"@ || name
            == "RESTIC_PASSWORD"@ || name == "AWS_ACCESS_KEY_ID"@ || name
            == "AWS_SECRET_ACCESS_KEY"@,
        scaffold().contains_key(name) ==> scaffold()[name].len() == 0,
{
}

/// Restic's environment, name by name: the `PATH` of the caller or the usual one, the cache
/// directory, and each of the six credentials that the secrets file gives, with its value as it is.
pub proof fn law_env_name_by_name(
    secrets: Entries,
    cache_dir: Seq<char>,
    path: Option<Seq<char>>,
    name: Seq<char>,
)
    ensures
        ({
            let env = restic_env(secrets, cache_dir, path);
            let credential = name == "RESTIC_REPOSITORY"@ || name == "RESTIC_PASSWORD"@ || name
                == "AWS_ACCESS_KEY_ID"@ || name == "AWS_SECRET_ACCESS_KEY"@ || name
                == "AWS_DEFAULT_REGION"@ || name == "AWS_SESSION_TOKEN"@;
            let given = credential && secrets.contains_key(name) && exists|i: int|
                0 <= i < secrets[name].len() && !is_white_space(#[trigger] secrets[name][i]);
            &&& env.contains_key(name) <==> name == "PATH"@ || name == "RESTIC_CACHE_DIR"@ || given
            &&& given ==> env[name] == secrets[name]
            &&& env["RESTIC_CACHE_DIR"@] == cache_dir
            &&& path matches Some(p) ==> env["PATH"@] == p
            &&& path is None ==> env["PATH"@] == "/usr/local/bin:/opt/homebrew/bin:/usr/bin:/bin"@
        }),
{
    law_env_holds_nothing_else(secrets, cache_dir, path, name);
    law_given_entry(secrets, name);
    reveal_strlit("RESTIC_CACHE_DIR");
    reveal_strlit("PATH");
    reveal_strlit("RESTIC_REPOSITORY");
    reveal_strlit("RESTIC_PASSWORD");
    reveal_strlit("AWS_ACCESS_KEY_ID");
    reveal_strlit("AWS_SECRET_ACCESS_KEY");
    reveal_strlit("AWS_DEFAULT_REGION");
    reveal_strlit("AWS_SESSION_TOKEN");
    assert("RESTIC_CACHE_DIR"@.len() == 16 && "PATH"@.len() == 4);
}

/// The words on a missing entry name the entry and the file to be edited.
pub proof fn law_missing_secret_is_named(missing: MissingSecret)
    ensures
        ({
            let words = missing.text();
            let name = "missing "@.len() as int;
            let file = name + missing.name@.len() + " in secrets file "@.len();
            let end = file + missing.secrets_path@.len();
            &&& words.take(name) == "missing "@
            &&& words.subrange(name, name + missing.name@.len()) == missing.name@
            &&& words.subrange(name + missing.name@.len(), file) == " in secrets file "@
            &&& words.subrange(file, end) == missing.secrets_path@
            &&& words.skip(end) == "; edit it and fill in the required values"@
        }),
{
    let words = missing.text();
    let name = "missing "@.len() as int;
    let file = name + missing.name@.len() + " in secrets file "@.len();
    let end = file + missing.secrets_path@.len();
    assert(words.take(name) =~= "missing "@);
    assert(words.subrange(name, name + missing.name@.len()) =~= missing.name@);
    assert(words.subrange(name + missing.name@.len(), file) =~= " in secrets file "@);
    assert(words.subrange(file, end) =~= missing.secrets_path@);
    assert(words.skip(end) =~= "; edit it and fill in the required values"@);
}

/// Restic is run exactly where the secrets file gives both a repository and a password; else the
/// first of the two that it does not give is reported, with the file to be edited.
pub proof fn law_repository_and_password_are_required(
    config: Config,
    secrets: Entries,
    path: Option<Seq<char>>,
    out: Result<EnvMap, MissingSecret>,
)
    requires
        is_env_or_missing(config, secrets, path, out),
    ensures
        ({
            let repository = secrets.contains_key("RESTIC_REPOSITORY"@) && exists|i: int|
                0 <= i < secrets["RESTIC_REPOSITORY"@].len() && !is_white_space(
                    #[trigger] secrets["RESTIC_REPOSITORY"@][i],
                );
            let password = secrets.contains_key("RESTIC_PASSWORD"@) && exists|i: int|
                0 <= i < secrets["RESTIC_PASSWORD"@].len() && !is_white_space(
                    #[trigger] secrets["RESTIC_PASSWORD"@][i],
                );
            &&& out is Ok <==> repository && password
            &&& out matches Ok(env) ==> env@ == restic_env(secrets, config.cache_dir@, path)
            &&& out matches Err(e) ==> e.secrets_path@ == config.secrets_path@ && e.name@
                == if repository {
                "RESTIC_PASSWORD"@
            } else {
                "RESTIC_REPOSITORY"@
            }
        }),
{
    law_given_entry(secrets, "RESTIC_REPOSITORY"@);
    law_given_entry(secrets, "RESTIC_PASSWORD"@);
}

/// A topic without a prefix is the digits alone.
pub proof fn law_topic_without_prefix(random: Seq<u8>)
    ensures
        random_topic(None, random).len() == 2 * random.len(),
        forall|i: int|
            0 <= i < random.len() ==> 16 * digit_value(random_topic(None, random)[2 * i])
                + digit_value(random_topic(None, random)[2 * i + 1]) == #[trigger] random[i],
{
    lemma_hexadecimal(random);
    assert forall|i: int| 0 <= i < random.len() implies 16 * digit_value(
        random_topic(None, random)[2 * i],
    ) + digit_value(random_topic(None, random)[2 * i + 1]) == #[trigger] random[i] by {
        law_hexadecimal_reads_back(random, i);
    }
}

} // verus!

//! The settings of a run, resolved from the environment.

use vstd::prelude::*;
use vstd::utf8::{
    decode_utf8, encode_utf8, encode_utf8_decode_utf8, encode_utf8_valid_utf8, valid_utf8,
};
use crate::path::{
    file_name, final_component, join_path, joined, law_final_component_is_last_name,
};
use crate::text::{
    is_stripped, is_white_space, law_trimmed, lemma_strip_shape, str_of, text_of, trim, trimmed,
    Pattern,
};

verus! {

pub const TLD: &'static str = "net";

pub const DOMAIN: &'static str = "nausicaea";

pub const SUBDOMAIN: &'static str = "serpula";

/// The mode of a directory that holds secrets.
pub const PRIVATE_DIR_MODE: u32 = 0o700;

/// The directory below the local data directory that holds the secrets file.
pub const SECRETS_DIR: &'static str = "secrets";

/// The name of the secrets file.
pub const SECRETS_FILE: &'static str = "env";

/// The directory below the cache directory that holds the logs.
pub const LOG_DIR: &'static str = "logs";

/// The user name that stands in where none can be found.
pub const FALLBACK_USER: &'static str = "user";

pub const DEFAULT_NTFY_SERVER: &'static str = "https://ntfy.sh";

pub const NTFY_PREFIX: &'static str = "restic-backup";

pub const DEFAULT_KEEP_HOURLY: &'static str = "24";

pub const DEFAULT_KEEP_DAILY: &'static str = "14";

pub const DEFAULT_KEEP_WEEKLY: &'static str = "4";

pub const DEFAULT_KEEP_MONTHLY: &'static str = "12";

pub const DEFAULT_KEEP_YEARLY: &'static str = "10";

pub const DEFAULT_CHECK_PERCENT: &'static str = "10";

/// The settings of a run. Paths are held as text.
#[derive(Debug, Clone)]
pub struct Config {
    pub home_dir: String,
    pub username: String,
    pub secrets_path: String,
    pub runtime_dir: String,
    pub log_dir: String,
    pub cache_dir: String,
    pub backup_source: String,
    pub hostname: String,
    pub ntfy_server: String,
    pub ntfy_prefix: String,
    pub keep_hourly: String,
    pub keep_daily: String,
    pub keep_weekly: String,
    pub keep_monthly: String,
    pub keep_yearly: String,
    pub check_percent: String,
}

/// The directories that the system assigns to the application.
#[derive(Debug)]
pub struct AppDirs {
    pub data_local_dir: String,
    pub data_dir: String,
    pub runtime_dir: Option<String>,
    pub cache_dir: String,
}

/// Where the application keeps its files, and for whom.
#[derive(Debug)]
pub struct Layout {
    pub home_dir: String,
    pub username: String,
    pub runtime_dir: String,
    pub cache_dir: String,
    pub log_dir: String,
    pub secrets_dir: String,
    pub secrets_path: String,
}

/// A directory to be made where it is missing.
#[derive(Debug)]
pub struct Directory {
    pub path: String,
    /// The mode to be set, also on a directory that is there already; `None` leaves it alone.
    pub mode: Option<u32>,
}

impl Directory {
    /// The directory has this path, and gets this mode.
    pub open spec fn has(self, path: Seq<char>, mode: Option<u32>) -> bool {
        &&& self.path@ == path
        &&& self.mode == mode
    }
}

/// The environment variables that override defaults: `BACKUP_PATH`, `NTFY_SERVER`, the five
/// `RESTIC_KEEP_*` and `RESTIC_CHECK_PERCENT`.
#[derive(Debug)]
pub struct Overrides {
    pub backup_path: Option<String>,
    pub ntfy_server: Option<String>,
    pub keep_hourly: Option<String>,
    pub keep_daily: Option<String>,
    pub keep_weekly: Option<String>,
    pub keep_monthly: Option<String>,
    pub keep_yearly: Option<String>,
    pub check_percent: Option<String>,
}

/// Why the settings cannot be resolved.
#[derive(Debug, Clone, Copy, PartialEq, Eq, Structural)]
pub enum ConfigError {
    NoHomeDir,
    NoAppDirs,
}

impl ConfigError {
    pub open spec fn text(self) -> Seq<char> {
        match self {
            ConfigError::NoHomeDir => "cannot determine home directory"@,
            ConfigError::NoAppDirs => "cannot determine application directories"@,
        }
    }

    pub fn message(&self) -> (out: String)
        ensures
            out@ == self.text(),
    {
        match self {
            ConfigError::NoHomeDir => "cannot determine home directory".to_owned(),
            ConfigError::NoAppDirs => "cannot determine application directories".to_owned(),
        }
    }
}

/// `value`, or `default` where it is absent.
pub open spec fn or_default(value: Option<String>, default: Seq<char>) -> Seq<char> {
    match value {
        Some(v) => v@,
        None => default,
    }
}

fn value_or(value: Option<String>, default: &str) -> (out: String)
    ensures
        out@ == or_default(value, default@),
{
    match value {
        Some(v) => v,
        None => default.to_owned(),
    }
}

/// The user name: the variable `USER`, else the name of the home directory, else `user`.
pub open spec fn user_name(user: Option<Seq<char>>, home: Seq<char>) -> Seq<char> {
    match user {
        Some(u) => u,
        None => match final_component(home) {
            Some(name) => name,
            None => FALLBACK_USER@,
        },
    }
}

impl Layout {
    /// The layout for a user with the home directory, in the directories of the application.
    pub open spec fn is_laid_out(
        self,
        home: Seq<char>,
        user: Option<Seq<char>>,
        dirs: AppDirs,
    ) -> bool {
        &&& self.home_dir@ == home
        &&& self.username@ == user_name(user, home)
        &&& self.runtime_dir@ == or_default(dirs.runtime_dir, dirs.data_dir@)
        &&& self.cache_dir@ == dirs.cache_dir@
        &&& self.log_dir@ == joined(dirs.cache_dir@, LOG_DIR@)
        &&& self.secrets_dir@ == joined(dirs.data_local_dir@, SECRETS_DIR@)
        &&& self.secrets_path@ == joined(self.secrets_dir@, SECRETS_FILE@)
    }

    /// Lays out the application's files. Fails where the home directory is unknown, and, with a
    /// home directory, where the application's directories are.
    pub fn new(
        home_dir: Option<String>,
        user: Option<String>,
        dirs: Option<AppDirs>,
    ) -> (out: Result<Layout, ConfigError>)
        ensures
            match out {
                Ok(l) => {
                    &&& home_dir matches Some(home)
                    &&& dirs matches Some(d)
                    &&& l.is_laid_out(home@, text_of(user), d)
                },
                Err(ConfigError::NoHomeDir) => home_dir is None,
                Err(ConfigError::NoAppDirs) => home_dir is Some && dirs is None,
            },
    {
        let home_dir = match home_dir {
            Some(home) => home,
            None => {
                return Err(ConfigError::NoHomeDir);
            },
        };
        let username = match user {
            Some(u) => u,
            None => value_or(file_name(home_dir.as_str()), FALLBACK_USER),
        };
        let dirs = match dirs {
            Some(d) => d,
            None => {
                return Err(ConfigError::NoAppDirs);
            },
        };
        let runtime_dir = value_or(dirs.runtime_dir, dirs.data_dir.as_str());
        let log_dir = join_path(dirs.cache_dir.as_str(), LOG_DIR);
        let secrets_dir = join_path(dirs.data_local_dir.as_str(), SECRETS_DIR);
        let secrets_path = join_path(secrets_dir.as_str(), SECRETS_FILE);
        Ok(
            Layout {
                home_dir,
                username,
                runtime_dir,
                cache_dir: dirs.cache_dir,
                log_dir,
                secrets_dir,
                secrets_path,
            },
        )
    }

    /// The directories that a run needs.
    pub open spec fn needs(self, dirs: Seq<Directory>) -> bool {
        &&& dirs.len() == 4
        &&& dirs[0].has(self.runtime_dir@, None)
        &&& dirs[1].has(self.log_dir@, None)
        &&& dirs[2].has(self.cache_dir@, None)
        &&& dirs[3].has(self.secrets_dir@, Some(PRIVATE_DIR_MODE))
    }

    /// The directories that a run needs, in the order in which they are made. The secrets are for
    /// the user alone.
    pub fn directories(&self) -> (out: Vec<Directory>)
        ensures
            self.needs(out@),
    {
        let mut out: Vec<Directory> = Vec::new();
        out.push(Directory { path: self.runtime_dir.clone(), mode: None });
        out.push(Directory { path: self.log_dir.clone(), mode: None });
        out.push(Directory { path: self.cache_dir.clone(), mode: None });
        out.push(Directory { path: self.secrets_dir.clone(), mode: Some(PRIVATE_DIR_MODE) });
        out
    }
}

impl Config {
    /// The settings that follow from the layout, the host name and the overrides.
    pub open spec fn is_loaded(
        self,
        layout: Layout,
        hostname: Seq<char>,
        overrides: Overrides,
    ) -> bool {
        &&& self.home_dir@ == layout.home_dir@
        &&& self.username@ == layout.username@
        &&& self.secrets_path@ == layout.secrets_path@
        &&& self.runtime_dir@ == layout.runtime_dir@
        &&& self.log_dir@ == layout.log_dir@
        &&& self.cache_dir@ == layout.cache_dir@
        &&& self.backup_source@ == or_default(overrides.backup_path, layout.home_dir@)
        &&& self.hostname@ == hostname
        &&& self.ntfy_server@ == or_default(overrides.ntfy_server, DEFAULT_NTFY_SERVER@)
        &&& self.ntfy_prefix@ == NTFY_PREFIX@
        &&& self.keep_hourly@ == or_default(overrides.keep_hourly, DEFAULT_KEEP_HOURLY@)
        &&& self.keep_daily@ == or_default(overrides.keep_daily, DEFAULT_KEEP_DAILY@)
        &&& self.keep_weekly@ == or_default(overrides.keep_weekly, DEFAULT_KEEP_WEEKLY@)
        &&& self.keep_monthly@ == or_default(overrides.keep_monthly, DEFAULT_KEEP_MONTHLY@)
        &&& self.keep_yearly@ == or_default(overrides.keep_yearly, DEFAULT_KEEP_YEARLY@)
        &&& self.check_percent@ == or_default(overrides.check_percent, DEFAULT_CHECK_PERCENT@)
    }

    /// The settings of a run on the host: the layout's paths, the home directory as backup source
    /// unless it is overridden, and the overrides or their defaults.
    pub fn load(layout: Layout, hostname: String, overrides: Overrides) -> (config: Config)
        ensures
            config.is_loaded(layout, hostname@, overrides),
    {
        let backup_source = value_or(overrides.backup_path, layout.home_dir.as_str());
        Config {
            home_dir: layout.home_dir,
            username: layout.username,
            secrets_path: layout.secrets_path,
            runtime_dir: layout.runtime_dir,
            log_dir: layout.log_dir,
            cache_dir: layout.cache_dir,
            backup_source,
            hostname,
            ntfy_server: value_or(overrides.ntfy_server, DEFAULT_NTFY_SERVER),
            ntfy_prefix: NTFY_PREFIX.to_owned(),
            keep_hourly: value_or(overrides.keep_hourly, DEFAULT_KEEP_HOURLY),
            keep_daily: value_or(overrides.keep_daily, DEFAULT_KEEP_DAILY),
            keep_weekly: value_or(overrides.keep_weekly, DEFAULT_KEEP_WEEKLY),
            keep_monthly: value_or(overrides.keep_monthly, DEFAULT_KEEP_MONTHLY),
            keep_yearly: value_or(overrides.keep_yearly, DEFAULT_KEEP_YEARLY),
            check_percent: value_or(overrides.check_percent, DEFAULT_CHECK_PERCENT),
        }
    }
}

/// The error of `String::from_utf8`.
#[verifier::external_type_specification]
#[verifier::external_body]
pub struct ExFromUtf8Error(std::string::FromUtf8Error);

/// `String::from_utf8` succeeds exactly on valid UTF-8, with the string that the bytes encode.
pub assume_specification[ String::from_utf8 ](vec: Vec<u8>) -> (out: Result<
    String,
    std::string::FromUtf8Error,
>)
    ensures
        match out {
            Ok(s) => valid_utf8(vec@) && encode_utf8(s@) == vec@,
            Err(_) => !valid_utf8(vec@),
        },
;

/// What a finished `hostname(1)` left behind.
#[derive(Debug)]
pub struct CommandOutput {
    pub success: bool,
    /// The exit status, as the system words it.
    pub status: String,
    pub stdout: Vec<u8>,
}

/// Why `hostname(1)` gives no host name.
#[derive(Debug)]
pub enum HostnameError {
    Spawn,
    Status(String),
    NotUtf8,
    Empty,
}

impl HostnameError {
    pub open spec fn text(self) -> Seq<char> {
        match self {
            HostnameError::Spawn => "failed to run hostname(1)"@,
            HostnameError::Status(status) => "hostname(1) exited with status: "@ + status@,
            HostnameError::NotUtf8 => "hostname(1) output was not valid UTF-8"@,
            HostnameError::Empty => "hostname(1) returned empty output"@,
        }
    }

    pub fn message(&self) -> (out: String)
        ensures
            out@ == self.text(),
    {
        match self {
            HostnameError::Spawn => "failed to run hostname(1)".to_owned(),
            HostnameError::Status(status) => "hostname(1) exited with status: ".to_owned().concat(
                status.as_str(),
            ),
            HostnameError::NotUtf8 => "hostname(1) output was not valid UTF-8".to_owned(),
            HostnameError::Empty => "hostname(1) returned empty output".to_owned(),
        }
    }
}

/// The host name that the variables give: `HOSTNAME`, or `hostname` where the former is not set,
/// trimmed, unless nothing remains.
pub open spec fn variable_hostname(
    upper: Option<Seq<char>>,
    lower: Option<Seq<char>>,
) -> Option<Seq<char>> {
    let chosen = if upper is Some {
        upper
    } else {
        lower
    };
    match chosen {
        Some(h) => if trimmed(h).len() > 0 {
            Some(trimmed(h))
        } else {
            None
        },
        None => None,
    }
}

/// The host name from the variables `HOSTNAME` and `hostname`; `None` sends the caller to
/// `hostname(1)`.
pub fn hostname_from_variables(upper: Option<&str>, lower: Option<&str>) -> (out: Option<String>)
    ensures
        text_of(out) == variable_hostname(str_of(upper), str_of(lower)),
{
    let chosen = match upper {
        Some(h) => Some(h),
        None => lower,
    };
    match chosen {
        Some(h) => {
            let h = trim(h);
            if h.is_empty() {
                None
            } else {
                Some(h.to_owned())
            }
        },
        None => None,
    }
}

/// The host name that `hostname(1)` gives: what it printed, trimmed, where it could be started,
/// succeeded and printed UTF-8, unless nothing remains.
pub open spec fn command_hostname(output: Option<CommandOutput>) -> Result<
    Seq<char>,
    HostnameError,
> {
    match output {
        Some(o) => if !o.success {
            Err(HostnameError::Status(o.status))
        } else if !valid_utf8(o.stdout@) {
            Err(HostnameError::NotUtf8)
        } else if trimmed(decode_utf8(o.stdout@)).len() == 0 {
            Err(HostnameError::Empty)
        } else {
            Ok(trimmed(decode_utf8(o.stdout@)))
        },
        None => Err(HostnameError::Spawn),
    }
}

/// The host name from the outcome of `hostname(1)`, `None` where it could not be started.
pub fn hostname_from_command(output: Option<CommandOutput>) -> (out: Result<String, HostnameError>)
    ensures
        match out {
            Ok(name) => command_hostname(output) == Ok::<Seq<char>, HostnameError>(name@),
            Err(e) => command_hostname(output) == Err::<Seq<char>, HostnameError>(e),
        },
{
    let output = match output {
        Some(o) => o,
        None => {
            return Err(HostnameError::Spawn);
        },
    };
    if !output.success {
        return Err(HostnameError::Status(output.status));
    }
    match String::from_utf8(output.stdout) {
        Ok(printed) => {
            proof {
                encode_utf8_decode_utf8(printed@);
            }
            let name = trim(printed.as_str());
            if name.is_empty() {
                Err(HostnameError::Empty)
            } else {
                Ok(name.to_owned())
            }
        },
        Err(_) => Err(HostnameError::NotUtf8),
    }
}

/// The host name: the one that the variables give, else the one that `hostname(1)` gives.
pub open spec fn host_name(
    upper: Option<Seq<char>>,
    lower: Option<Seq<char>>,
    output: Option<CommandOutput>,
) -> Result<Seq<char>, HostnameError> {
    match variable_hostname(upper, lower) {
        Some(name) => Ok(name),
        None => command_hostname(output),
    }
}

/// What is known on the way to the host name.
#[derive(Debug)]
pub enum HostnameSource {
    /// The variables `HOSTNAME` and `hostname`.
    Variables { upper: Option<String>, lower: Option<String> },
    /// The outcome of `hostname(1)`, `None` where it could not be started.
    Command(Option<CommandOutput>),
}

/// What to do next on the way to the host name.
#[derive(Debug)]
pub enum HostnameStep {
    /// This is the host name.
    Use(String),
    /// Run `hostname(1)`, and hand back its outcome.
    RunCommand,
    /// There is no host name.
    Fail(HostnameError),
}

/// The next step on the way to the host name.
pub open spec fn hostname_step(source: HostnameSource, step: HostnameStep) -> bool {
    match source {
        HostnameSource::Variables { upper, lower } => match variable_hostname(
            text_of(upper),
            text_of(lower),
        ) {
            Some(name) => step matches HostnameStep::Use(s) && s@ == name,
            None => step is RunCommand,
        },
        HostnameSource::Command(output) => match command_hostname(output) {
            Ok(name) => step matches HostnameStep::Use(s) && s@ == name,
            Err(e) => step == HostnameStep::Fail(e),
        },
    }
}

/// Takes the next step on the way to the host name.
pub fn get_hostname(source: HostnameSource) -> (step: HostnameStep)
    ensures
        hostname_step(source, step),
{
    match source {
        HostnameSource::Variables { upper, lower } => {
            let upper: Option<&str> = match &upper {
                Some(h) => Some(h.as_str()),
                None => None,
            };
            let lower: Option<&str> = match &lower {
                Some(h) => Some(h.as_str()),
                None => None,
            };
            match hostname_from_variables(upper, lower) {
                Some(name) => HostnameStep::Use(name),
                None => HostnameStep::RunCommand,
            }
        },
        HostnameSource::Command(output) => match hostname_from_command(output) {
            Ok(name) => HostnameStep::Use(name),
            Err(e) => HostnameStep::Fail(e),
        },
    }
}

/// The variables win, whatever `hostname(1)` would say; it is run, and decides, exactly where they
/// give nothing.
pub proof fn law_variables_win(
    upper: Option<String>,
    lower: Option<String>,
    output: Option<CommandOutput>,
    first: HostnameStep,
    second: HostnameStep,
)
    requires
        hostname_step(HostnameSource::Variables { upper, lower }, first),
        hostname_step(HostnameSource::Command(output), second),
    ensures
        ({
            let name = host_name(text_of(upper), text_of(lower), output);
            match first {
                HostnameStep::Use(s) => name == Ok::<Seq<char>, HostnameError>(s@),
                HostnameStep::RunCommand => {
                    &&& variable_hostname(text_of(upper), text_of(lower)) is None
                    &&& match second {
                        HostnameStep::Use(s) => name == Ok::<Seq<char>, HostnameError>(s@),
                        HostnameStep::RunCommand => false,
                        HostnameStep::Fail(e) => name == Err::<Seq<char>, HostnameError>(e),
                    }
                },
                HostnameStep::Fail(_) => false,
            }
        }),
{
}

/// A host name is not empty and has no white space at its ends.
pub proof fn law_hostname_is_clean(
    upper: Option<Seq<char>>,
    lower: Option<Seq<char>>,
    output: Option<CommandOutput>,
)
    ensures
        host_name(upper, lower, output) matches Ok(name) ==> name.len() > 0 && is_stripped(
            name,
            Pattern::WhiteSpace,
        ),
{
    if upper is Some {
        lemma_strip_shape(upper->0, Pattern::WhiteSpace);
    } else if lower is Some {
        lemma_strip_shape(lower->0, Pattern::WhiteSpace);
    }
    if output is Some {
        lemma_strip_shape(decode_utf8(output->0.stdout@), Pattern::WhiteSpace);
    }
}

/// A variable that is set decides, whatever it holds, also where it is empty; the default counts
/// only where it is not set.
pub proof fn law_set_variable_decides(value: Option<String>, default: Seq<char>)
    ensures
        value matches Some(v) ==> or_default(value, default) == v@,
        value is None ==> or_default(value, default) == default,
{
}

/// The user name is the variable, as it is, where that is set; else the name of the home directory,
/// wherever that stands; else `user`.
pub proof fn law_user_name(user: Option<Seq<char>>, parent: Seq<char>, name: Seq<char>)
    requires
        name.len() > 0,
        !name.contains('/'),
        name != seq!['.'],
        name != seq!['.', '.'],
    ensures
        user matches Some(u) ==> user_name(user, joined(parent, name)) == u,
        user_name(None, joined(parent, name)) == name,
        user_name(None, seq!['/']) == seq!['u', 's', 'e', 'r'],
        user_name(None, Seq::empty()) == seq!['u', 's', 'e', 'r'],
{
    law_final_component_is_last_name(parent, name, Seq::empty());
    assert(Seq::<char>::empty().push('/') =~= seq!['/']);
    reveal_strlit("user");
    assert(FALLBACK_USER@ =~= seq!['u', 's', 'e', 'r']);
}

/// The host name that a variable gives is its value, from its first to its last character that is
/// not white space, character for character. `HOSTNAME` hides `hostname`, also where it is blank.
pub proof fn law_hostname_variable_as_it_is(
    value: Seq<char>,
    other: Option<Seq<char>>,
    output: Option<CommandOutput>,
    lo: int,
    hi: int,
)
    requires
        0 <= lo <= hi <= value.len(),
        forall|i: int|
            0 <= i < lo || hi <= i < value.len() ==> is_white_space(#[trigger] value[i]),
        lo < hi ==> !is_white_space(value[lo]) && !is_white_space(value[hi - 1]),
    ensures
        lo < hi ==> host_name(Some(value), other, output) == Ok::<Seq<char>, HostnameError>(
            value.subrange(lo, hi),
        ),
        lo < hi ==> host_name(None, Some(value), output) == Ok::<Seq<char>, HostnameError>(
            value.subrange(lo, hi),
        ),
        lo == hi ==> host_name(Some(value), other, output) == host_name(None, None, output),
        lo == hi ==> host_name(None, Some(value), output) == host_name(None, None, output),
{
    law_trimmed(value, lo, hi);
}

/// Without the variables the host name is what `hostname(1)` printed, from its first to its last
/// character that is not white space; where that is nothing, or the command failed, there is none,
/// and the error says why.
pub proof fn law_hostname_command_as_it_is(
    printed: Seq<char>,
    output: CommandOutput,
    lo: int,
    hi: int,
)
    requires
        output.stdout@ == encode_utf8(printed),
        0 <= lo <= hi <= printed.len(),
        forall|i: int|
            0 <= i < lo || hi <= i < printed.len() ==> is_white_space(#[trigger] printed[i]),
        lo < hi ==> !is_white_space(printed[lo]) && !is_white_space(printed[hi - 1]),
    ensures
        ({
            let name = host_name(None, None, Some(output));
            &&& output.success && lo < hi ==> name == Ok::<Seq<char>, HostnameError>(
                printed.subrange(lo, hi),
            )
            &&& output.success && lo == hi ==> name == Err::<Seq<char>, HostnameError>(
                HostnameError::Empty,
            )
            &&& !output.success ==> name == Err::<Seq<char>, HostnameError>(
                HostnameError::Status(output.status),
            )
        }),
        host_name(None, None, None) == Err::<Seq<char>, HostnameError>(HostnameError::Spawn),
{
    encode_utf8_valid_utf8(printed);
    encode_utf8_decode_utf8(printed);
    law_trimmed(printed, lo, hi);
}

/// The words on a failed `hostname(1)` end with its status.
pub proof fn law_hostname_error_tells_status(status: String)
    ensures
        ({
            let words = HostnameError::Status(status).text();
            let note = "hostname(1) exited with status: "@;
            &&& note.is_prefix_of(words)
            &&& words.skip(note.len() as int) == status@
        }),
{
    let words = HostnameError::Status(status).text();
    let note = "hostname(1) exited with status: "@;
    assert(note =~= words.subrange(0, note.len() as int));
    assert(words.skip(note.len() as int) =~= status@);
}

/// The runtime directory, the logs and the cache are made with the usual mode, and the directory of
/// the secrets, alone, with mode 0700.
pub proof fn law_only_secrets_are_private(layout: Layout, dirs: Seq<Directory>)
    requires
        layout.needs(dirs),
    ensures
        dirs.len() == 4,
        dirs[0].path@ == layout.runtime_dir@ && dirs[0].mode is None,
        dirs[1].path@ == layout.log_dir@ && dirs[1].mode is None,
        dirs[2].path@ == layout.cache_dir@ && dirs[2].mode is None,
        dirs[3].path@ == layout.secrets_dir@ && dirs[3].mode == Some(0o700u32),
{
}

/// The files of the application stand where they are looked for: the logs below the cache, the
/// secrets below the local data; the runtime directory is the one of the system where there is one.
pub proof fn law_layout_places_files(
    layout: Layout,
    home: Seq<char>,
    user: Option<Seq<char>>,
    dirs: AppDirs,
)
    requires
        layout.is_laid_out(home, user, dirs),
    ensures
        layout.home_dir@ == home,
        user matches Some(u) ==> layout.username@ == u,
        user is None ==> layout.username@ == user_name(None, home),
        dirs.runtime_dir matches Some(r) ==> layout.runtime_dir@ == r@,
        dirs.runtime_dir is None ==> layout.runtime_dir@ == dirs.data_dir@,
        layout.cache_dir@ == dirs.cache_dir@,
        layout.log_dir@ == joined(dirs.cache_dir@, "logs"@),
        layout.secrets_dir@ == joined(dirs.data_local_dir@, "secrets"@),
        layout.secrets_path@ == joined(joined(dirs.data_local_dir@, "secrets"@), "env"@),
{
}

/// Every variable that is set is taken as it is; every other setting has its default, and the paths
/// are those of the layout.
pub proof fn law_config_takes_overrides(
    config: Config,
    layout: Layout,
    hostname: Seq<char>,
    overrides: Overrides,
)
    requires
        config.is_loaded(layout, hostname, overrides),
    ensures
        overrides.backup_path matches Some(v) ==> config.backup_source@ == v@,
        overrides.backup_path is None ==> config.backup_source@ == layout.home_dir@,
        overrides.ntfy_server matches Some(v) ==> config.ntfy_server@ == v@,
        overrides.ntfy_server is None ==> config.ntfy_server@ == "https://ntfy.sh"@,
        overrides.keep_hourly matches Some(v) ==> config.keep_hourly@ == v@,
        overrides.keep_hourly is None ==> config.keep_hourly@ == "24"@,
        overrides.keep_daily matches Some(v) ==> config.keep_daily@ == v@,
        overrides.keep_daily is None ==> config.keep_daily@ == "14"@,
        overrides.keep_weekly matches Some(v) ==> config.keep_weekly@ == v@,
        overrides.keep_weekly is None ==> config.keep_weekly@ == "4"@,
        overrides.keep_monthly matches Some(v) ==> config.keep_monthly@ == v@,
        overrides.keep_monthly is None ==> config.keep_monthly@ == "12"@,
        overrides.keep_yearly matches Some(v) ==> config.keep_yearly@ == v@,
        overrides.keep_yearly is None ==> config.keep_yearly@ == "10"@,
        overrides.check_percent matches Some(v) ==> config.check_percent@ == v@,
        overrides.check_percent is None ==> config.check_percent@ == "10"@,
        config.hostname@ == hostname,
        config.ntfy_prefix@ == "restic-backup"@,
        config.home_dir@ == layout.home_dir@,
        config.username@ == layout.username@,
        config.secrets_path@ == layout.secrets_path@,
        config.runtime_dir@ == layout.runtime_dir@,
        config.log_dir@ == layout.log_dir@,
        config.cache_dir@ == layout.cache_dir@,
{
}

} // verus!

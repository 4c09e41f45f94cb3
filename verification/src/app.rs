//! The commands: what restic is called with, and how a run is guarded.

use vstd::prelude::*;
use crate::config::Config;
use crate::env_map::{EnvMap, Entries};
use crate::path::{join_path, joined};
use crate::secrets::{
    build_restic_env, has_value, is_env_or_missing, restic_env, MissingSecret,
};
use crate::text::{
    is_white_space, law_trimmed, lemma_strip_back, lemma_strip_back_shape, lemma_strip_fixed,
    lemma_strip_shape, same_text, strip_back, text_of, texts, trim, trim_end, trimmed, Pattern,
};

verus! {

/// A percentage as restic takes it: trimmed, with exactly one percent sign at its end.
pub open spec fn percentage(raw: Seq<char>) -> Seq<char> {
    strip_back(trimmed(raw), Pattern::Exactly('%')) + seq!['%']
}

/// Brings a percentage, with or without percent sign, into the form that restic takes.
pub fn normalized_subset_percent(raw: &str) -> (out: String)
    ensures
        out@ == percentage(raw@),
{
    let number = trim_end(trim(raw), &Pattern::Exactly('%'));
    let mut out = number.to_owned();
    out.push('%');
    proof {
        assert(out@ =~= number@ + seq!['%']);
    }
    out
}

/// A normalized percentage ends with one percent sign, and normalizing it changes nothing.
pub proof fn law_percentage_is_normal(raw: Seq<char>)
    ensures
        percentage(raw).len() > 0,
        percentage(raw).last() == '%',
        percentage(raw).len() > 1 ==> percentage(raw)[percentage(raw).len() - 2] != '%',
        percentage(percentage(raw)) == percentage(raw),
{
    let sign = Pattern::Exactly('%');
    let t = trimmed(raw);
    let b = lemma_strip_shape(raw, Pattern::WhiteSpace);
    let k = lemma_strip_back_shape(t, sign);
    let number = t.take(k);
    let out = percentage(raw);
    assert(out[0] == if k > 0 {
        t[0]
    } else {
        '%'
    });
    lemma_strip_fixed(out, Pattern::WhiteSpace);
    assert(strip_back(out, sign) == strip_back(number, sign)) by {
        assert(out.drop_last() =~= number);
    }
    assert(strip_back(number, sign) == number);
}

/// The arguments of a backup: the source, tagged with the host, without caches.
pub open spec fn backup_command(config: Config) -> Seq<Seq<char>> {
    seq![
        "backup"@,
        config.backup_source@,
        "--tag"@,
        config.hostname@,
        "--exclude-caches"@,
        "--exclude"@,
        joined(joined(config.home_dir@, "Library"@), "Caches"@),
    ]
}

/// The arguments of a check: a share of the data is read.
pub open spec fn check_command(config: Config) -> Seq<Seq<char>> {
    seq!["check"@, "--read-data-subset"@, percentage(config.check_percent@)]
}

/// The arguments that forget and prune the host's old snapshots.
pub open spec fn forget_command(config: Config) -> Seq<Seq<char>> {
    seq![
        "forget"@,
        "--prune"@,
        "--tag"@,
        config.hostname@,
        "--keep-hourly"@,
        config.keep_hourly@,
        "--keep-daily"@,
        config.keep_daily@,
        "--keep-weekly"@,
        config.keep_weekly@,
        "--keep-monthly"@,
        config.keep_monthly@,
        "--keep-yearly"@,
        config.keep_yearly@,
    ]
}

/// The default arguments of `restic backup`.
pub fn backup_args(config: &Config) -> (args: Vec<String>)
    ensures
        texts(args@) == backup_command(*config),
{
    let library = join_path(config.home_dir.as_str(), "Library");
    let mut args: Vec<String> = Vec::new();
    args.push("backup".to_owned());
    args.push(config.backup_source.clone());
    args.push("--tag".to_owned());
    args.push(config.hostname.clone());
    args.push("--exclude-caches".to_owned());
    args.push("--exclude".to_owned());
    args.push(join_path(library.as_str(), "Caches"));
    proof {
        assert(texts(args@) =~= backup_command(*config));
    }
    args
}

/// The default arguments of `restic check`.
pub fn check_args(config: &Config) -> (args: Vec<String>)
    ensures
        texts(args@) == check_command(*config),
{
    let mut args: Vec<String> = Vec::new();
    args.push("check".to_owned());
    args.push("--read-data-subset".to_owned());
    args.push(normalized_subset_percent(config.check_percent.as_str()));
    proof {
        assert(texts(args@) =~= check_command(*config));
    }
    args
}

/// The default arguments of `restic forget`.
pub fn forget_args(config: &Config) -> (args: Vec<String>)
    ensures
        texts(args@) == forget_command(*config),
{
    let mut args: Vec<String> = Vec::new();
    args.push("forget".to_owned());
    args.push("--prune".to_owned());
    args.push("--tag".to_owned());
    args.push(config.hostname.clone());
    args.push("--keep-hourly".to_owned());
    args.push(config.keep_hourly.clone());
    args.push("--keep-daily".to_owned());
    args.push(config.keep_daily.clone());
    args.push("--keep-weekly".to_owned());
    args.push(config.keep_weekly.clone());
    args.push("--keep-monthly".to_owned());
    args.push(config.keep_monthly.clone());
    args.push("--keep-yearly".to_owned());
    args.push(config.keep_yearly.clone());
    proof {
        assert(texts(args@) =~= forget_command(*config));
    }
    args
}

/// The default arguments that stand in for a subcommand, where it has any.
pub open spec fn default_command(config: Config, subcommand: Seq<char>) -> Option<Seq<Seq<char>>> {
    if subcommand == "backup"@ {
        Some(backup_command(config))
    } else if subcommand == "check"@ {
        Some(check_command(config))
    } else if subcommand == "forget"@ {
        Some(forget_command(config))
    } else {
        None
    }
}

/// The arguments for restic: a subcommand with default arguments is replaced by these, and what
/// follows it stays behind them; anything else is passed on as it is.
pub open spec fn proxied(config: Config, args: Seq<Seq<char>>) -> Seq<Seq<char>> {
    if args.len() == 0 {
        args
    } else {
        match default_command(config, args[0]) {
            Some(defaults) => defaults + args.skip(1),
            None => args,
        }
    }
}

/// Every argument that the user gave, but a replaced subcommand, reaches restic, in order and at
/// the end; the subcommand that restic runs is the one that the user named.
pub proof fn law_user_arguments_are_kept(config: Config, args: Seq<Seq<char>>)
    requires
        args.len() > 0,
    ensures
        proxied(config, args).len() >= args.len(),
        proxied(config, args)[0] == args[0],
        proxied(config, args).skip(proxied(config, args).len() - (args.len() - 1)) == args.skip(1),
{
    let out = proxied(config, args);
    assert(out.skip(out.len() - (args.len() - 1)) =~= args.skip(1));
}

/// Puts together the arguments for restic.
pub fn proxy_args(config: &Config, args: &[String]) -> (out: Vec<String>)
    ensures
        texts(out@) == proxied(*config, texts(args@)),
{
    let mut out: Vec<String> = Vec::new();
    let mut next: usize = 0;
    if args.len() > 0 {
        let subcommand = args[0].as_str();
        if same_text(subcommand, "backup") {
            out = backup_args(config);
            next = 1;
        } else if same_text(subcommand, "check") {
            out = check_args(config);
            next = 1;
        } else if same_text(subcommand, "forget") {
            out = forget_args(config);
            next = 1;
        }
    }
    let ghost all = texts(args@);
    let ghost head = texts(out@);
    let ghost skipped = next as int;
    proof {
        assert(args@.len() > 0 ==> all[0] == args@[0]@);
        assert(all.subrange(skipped, skipped) =~= Seq::<Seq<char>>::empty());
        assert(texts(out@) =~= head + all.subrange(skipped, skipped));
    }
    while next < args.len()
        invariant
            all == texts(args@),
            0 <= skipped <= next,
            next <= args.len() || next == skipped,
            texts(out@) == head + all.subrange(skipped, next as int),
        decreases args.len() - next,
    {
        let ghost before = out@;
        out.push(args[next].clone());
        proof {
            assert(texts(out@) =~= texts(before).push(args@[next as int]@));
            assert(all.subrange(skipped, next + 1) =~= all.subrange(skipped, next as int).push(
                all[next as int],
            ));
            assert(texts(out@) =~= head + all.subrange(skipped, next + 1));
        }
        next = next + 1;
    }
    proof {
        assert(all.subrange(skipped, next as int) =~= all.skip(skipped));
        assert(skipped == 0 ==> head + all.skip(skipped) =~= all);
    }
    out
}

/// A call of restic: its arguments and its whole environment.
#[derive(Debug)]
pub struct ResticCall {
    pub args: Vec<String>,
    pub env: EnvMap,
}

/// The call of restic for the user's arguments, or the required secret that is missing.
pub open spec fn is_call_or_missing(
    config: Config,
    args: Seq<Seq<char>>,
    secrets: Entries,
    path: Option<Seq<char>>,
    out: Result<ResticCall, MissingSecret>,
) -> bool {
    match out {
        Ok(call) => {
            &&& has_value(secrets, "RESTIC_REPOSITORY"@)
            &&& has_value(secrets, "RESTIC_PASSWORD"@)
            &&& texts(call.args@) == proxied(config, args)
            &&& call.env@ == restic_env(secrets, config.cache_dir@, path)
        },
        Err(e) => {
            &&& e.secrets_path@ == config.secrets_path@
            &&& if has_value(secrets, "RESTIC_REPOSITORY"@) {
                e.name@ == "RESTIC_PASSWORD"@ && !has_value(secrets, "RESTIC_PASSWORD"@)
            } else {
                e.name@ == "RESTIC_REPOSITORY"@
            }
        },
    }
}

/// Restic is called exactly where its environment can be made, with that environment and with the
/// user's arguments behind the default ones.
pub proof fn law_call_needs_environment(
    config: Config,
    args: Seq<Seq<char>>,
    secrets: Entries,
    path: Option<Seq<char>>,
    out: Result<ResticCall, MissingSecret>,
    env: Result<EnvMap, MissingSecret>,
)
    requires
        is_call_or_missing(config, args, secrets, path, out),
        is_env_or_missing(config, secrets, path, env),
    ensures
        out is Ok <==> env is Ok,
        out matches Ok(call) ==> call.env@ == env->Ok_0@ && texts(call.args@) == proxied(
            config,
            args,
        ),
        out matches Err(e) ==> e.name@ == env->Err_0.name@ && e.secrets_path@
            == env->Err_0.secrets_path@,
{
}

/// The call of restic for the user's arguments, or the required secret that is missing.
pub fn cmd_proxy(
    config: &Config,
    args: &[String],
    secrets: &EnvMap,
    path: Option<String>,
) -> (out: Result<ResticCall, MissingSecret>)
    ensures
        is_call_or_missing(*config, texts(args@), secrets@, text_of(path), out),
{
    let args = proxy_args(config, args);
    match build_restic_env(config, secrets, path) {
        Ok(env) => Ok(ResticCall { args, env }),
        Err(e) => Err(e),
    }
}

/// The file that is locked while a command runs.
pub const LOCK_FILE: &'static str = "resticbackup.lock";

/// The mode of the lock file.
pub const LOCK_MODE: u32 = 0o600;

/// The file to be locked, made with the mode where it is missing.
#[derive(Debug)]
pub struct LockFile {
    pub path: String,
    pub mode: u32,
}

impl LockFile {
    /// The lock stands in the runtime directory, for the user alone.
    pub open spec fn guards(self, config: Config) -> bool {
        &&& self.path@ == joined(config.runtime_dir@, LOCK_FILE@)
        &&& self.mode == LOCK_MODE
    }
}

/// All runs with the same runtime directory have the same lock, below that directory.
pub proof fn law_one_lock(a: LockFile, b: LockFile, config: Config, other: Config)
    requires
        a.guards(config),
        b.guards(other),
        config.runtime_dir@ == other.runtime_dir@,
    ensures
        a.path@ == b.path@,
        a.path@ == joined(config.runtime_dir@, "resticbackup.lock"@),
        a.mode == 0o600,
{
}

/// The lock of the user's runs.
pub fn lock_file(config: &Config) -> (out: LockFile)
    ensures
        out.guards(*config),
{
    LockFile { path: join_path(config.runtime_dir.as_str(), LOCK_FILE), mode: LOCK_MODE }
}

/// Why the lock cannot be had.
pub open spec fn lock_error(path: Seq<char>, reason: Seq<char>) -> Seq<char> {
    "lock error on "@ + path + ": "@ + reason
}

/// Words the failure to lock a file.
pub fn lock_error_message(path: &str, reason: &str) -> (out: String)
    ensures
        out@ == lock_error(path@, reason@),
{
    "lock error on ".to_owned().concat(path).concat(": ").concat(reason)
}

/// The part of a guarded run that has just ended.
#[derive(Debug, Clone, Copy, PartialEq, Eq, Structural)]
pub enum RunStage {
    /// The settings were loaded.
    Load,
    /// The lock was taken.
    Lock,
    /// The command was run.
    Command,
}

/// What to do next in a guarded run.
#[derive(Debug)]
pub enum RunStep {
    /// Take the lock.
    AcquireLock,
    /// Run the command, and keep the lock until it has ended.
    RunCommand,
    /// The run has succeeded.
    Succeed,
    /// The run has failed with the error that just came up; notify the user first, where there is
    /// a message.
    Fail { notify: Option<String> },
}

/// The next step of a guarded run after a stage that ended well, or with an error. A failure is
/// notified, but for one to load the settings, without which there is nobody to notify.
pub open spec fn run_step(stage: RunStage, outcome: Result<(), String>, step: RunStep) -> bool {
    match (stage, outcome) {
        (RunStage::Load, Ok(())) => step is AcquireLock,
        (RunStage::Lock, Ok(())) => step is RunCommand,
        (RunStage::Command, Ok(())) => step is Succeed,
        (RunStage::Load, Err(_)) => step == RunStep::Fail { notify: None },
        (RunStage::Lock, Err(e)) => step matches RunStep::Fail { notify: Some(message) }
            && message@ == "failed to acquire lock: "@ + e@,
        (RunStage::Command, Err(e)) => step matches RunStep::Fail { notify: Some(message) }
            && message@ == e@,
    }
}

/// Takes the next step of a guarded run.
pub fn guarded_run(stage: RunStage, outcome: Result<(), String>) -> (step: RunStep)
    ensures
        run_step(stage, outcome, step),
{
    match outcome {
        Ok(()) => match stage {
            RunStage::Load => RunStep::AcquireLock,
            RunStage::Lock => RunStep::RunCommand,
            RunStage::Command => RunStep::Succeed,
        },
        Err(e) => match stage {
            RunStage::Load => RunStep::Fail { notify: None },
            RunStage::Lock => RunStep::Fail {
                notify: Some("failed to acquire lock: ".to_owned().concat(e.as_str())),
            },
            RunStage::Command => RunStep::Fail { notify: Some(e) },
        },
    }
}

/// The command runs only behind a lock that was taken, the run succeeds only where the command
/// did, and a run that got past its settings and then failed is notified.
pub proof fn law_guarded_run(stage: RunStage, outcome: Result<(), String>, step: RunStep)
    requires
        run_step(stage, outcome, step),
    ensures
        step is RunCommand <==> stage == RunStage::Lock && outcome is Ok,
        step is Succeed <==> stage == RunStage::Command && outcome is Ok,
        step is Fail <==> outcome is Err,
        step is Fail && stage != RunStage::Load ==> step->notify is Some,
{
}

/// The stage that ends next after a step, where the run goes on.
pub open spec fn next_stage(step: RunStep) -> Option<RunStage> {
    match step {
        RunStep::AcquireLock => Some(RunStage::Lock),
        RunStep::RunCommand => Some(RunStage::Command),
        RunStep::Succeed => None,
        RunStep::Fail { notify: _ } => None,
    }
}

/// Gives the stage that ends next after a step; `None` where the run is over.
pub fn stage_after(step: &RunStep) -> (next: Option<RunStage>)
    ensures
        next == next_stage(*step),
{
    match step {
        RunStep::AcquireLock => Some(RunStage::Lock),
        RunStep::RunCommand => Some(RunStage::Command),
        RunStep::Succeed => None,
        RunStep::Fail { notify: _ } => None,
    }
}

/// A guarded run from its start: the stages that ended, how each of them ended, and the step that
/// was taken then.
pub open spec fn is_run(
    stages: Seq<RunStage>,
    outcomes: Seq<Result<(), String>>,
    steps: Seq<RunStep>,
) -> bool {
    &&& stages.len() > 0
    &&& stages.len() == outcomes.len()
    &&& stages.len() == steps.len()
    &&& stages[0] == RunStage::Load
    &&& forall|i: int|
        0 <= i < steps.len() ==> run_step(stages[i], outcomes[i], #[trigger] steps[i])
    &&& forall|i: int, j: int|
        #![trigger steps[i], stages[j]]
        0 <= i && j == i + 1 && j < stages.len() ==> next_stage(steps[i]) == Some(stages[j])
}

/// A run passes the settings, the lock and the command, each once and in this order. The command
/// runs at most once, and only after the settings were loaded and the lock was taken. A run that
/// is over has succeeded, after all three, or failed with the last outcome.
pub proof fn law_run_order(
    stages: Seq<RunStage>,
    outcomes: Seq<Result<(), String>>,
    steps: Seq<RunStep>,
)
    requires
        is_run(stages, outcomes, steps),
    ensures
        stages.is_prefix_of(seq![RunStage::Load, RunStage::Lock, RunStage::Command]),
        forall|i: int|
            0 <= i < steps.len() && (#[trigger] steps[i]) is RunCommand ==> i == 1
                && outcomes[0] is Ok && outcomes[1] is Ok,
        next_stage(steps.last()) is None ==> {
            ||| steps.last() is Succeed && stages.len() == 3 && outcomes[0] is Ok
                && outcomes[1] is Ok && outcomes[2] is Ok
            ||| steps.last() is Fail && outcomes.last() is Err
        },
{
    let n = stages.len();
    assert(run_step(stages[0], outcomes[0], steps[0]));
    if n > 1 {
        assert(next_stage(steps[0]) == Some(stages[1]));
        assert(run_step(stages[1], outcomes[1], steps[1]));
    }
    if n > 2 {
        assert(next_stage(steps[1]) == Some(stages[2]));
        assert(run_step(stages[2], outcomes[2], steps[2]));
    }
    if n > 3 {
        assert(next_stage(steps[2]) == Some(stages[3]));
    }
    let whole = seq![RunStage::Load, RunStage::Lock, RunStage::Command];
    assert(stages =~= whole.subrange(0, n as int));
}

/// The options, among those that the default arguments use, that take the next word as their value.
pub open spec fn takes_value(word: Seq<char>) -> bool {
    ||| word == "--tag"@
    ||| word == "--exclude"@
    ||| word == "--read-data-subset"@
    ||| word == "--keep-hourly"@
    ||| word == "--keep-daily"@
    ||| word == "--keep-weekly"@
    ||| word == "--keep-monthly"@
    ||| word == "--keep-yearly"@
}

/// The values that the arguments give an option, read from the left: a word behind an option that
/// takes a value is that value, whatever it looks like.
pub open spec fn option_values(args: Seq<Seq<char>>, option: Seq<char>) -> Seq<Seq<char>>
    decreases args.len(),
{
    if args.len() == 0 {
        Seq::empty()
    } else if takes_value(args[0]) && args.len() > 1 {
        if args[0] == option {
            seq![args[1]] + option_values(args.skip(2), option)
        } else {
            option_values(args.skip(2), option)
        }
    } else {
        option_values(args.skip(1), option)
    }
}

/// The arguments that are neither an option that takes a value nor such a value, in order.
pub open spec fn plain_words(args: Seq<Seq<char>>) -> Seq<Seq<char>>
    decreases args.len(),
{
    if args.len() == 0 {
        Seq::empty()
    } else if takes_value(args[0]) && args.len() > 1 {
        plain_words(args.skip(2))
    } else {
        seq![args[0]] + plain_words(args.skip(1))
    }
}

/// Reading an option and its value.
proof fn lemma_read_option(
    args: Seq<Seq<char>>,
    name: Seq<char>,
    value: Seq<char>,
    option: Seq<char>,
)
    requires
        args.len() > 1,
        takes_value(name),
        args[0] == name,
        args[1] == value,
    ensures
        option_values(args, option) == (if name == option {
            seq![value] + option_values(args.skip(2), option)
        } else {
            option_values(args.skip(2), option)
        }),
        plain_words(args) == plain_words(args.skip(2)),
{
}

/// The options that take a value differ from one another and from the other words of the default
/// arguments.
proof fn lemma_option_words()
    ensures
        !takes_value("backup"@),
        !takes_value("check"@),
        !takes_value("forget"@),
        !takes_value("--prune"@),
        !takes_value("--exclude-caches"@),
        "--tag"@ != "--exclude"@,
        "--exclude"@ != "--keep-hourly"@,
        "--exclude"@ != "--keep-daily"@,
        "--exclude"@ != "--keep-weekly"@,
        "--exclude"@ != "--keep-monthly"@,
        "--exclude"@ != "--keep-yearly"@,
        "--tag"@ != "--keep-hourly"@,
        "--tag"@ != "--keep-daily"@,
        "--tag"@ != "--keep-weekly"@,
        "--tag"@ != "--keep-monthly"@,
        "--tag"@ != "--keep-yearly"@,
        "--keep-hourly"@ != "--keep-daily"@,
        "--keep-hourly"@ != "--keep-weekly"@,
        "--keep-hourly"@ != "--keep-monthly"@,
        "--keep-hourly"@ != "--keep-yearly"@,
        "--keep-daily"@ != "--keep-weekly"@,
        "--keep-daily"@ != "--keep-monthly"@,
        "--keep-daily"@ != "--keep-yearly"@,
        "--keep-weekly"@ != "--keep-monthly"@,
        "--keep-weekly"@ != "--keep-yearly"@,
        "--keep-monthly"@ != "--keep-yearly"@,
        "backup"@ != "check"@,
        "backup"@ != "forget"@,
        "check"@ != "forget"@,
{
    reveal_strlit("backup");
    reveal_strlit("check");
    reveal_strlit("forget");
    reveal_strlit("--prune");
    reveal_strlit("--exclude-caches");
    reveal_strlit("--tag");
    reveal_strlit("--exclude");
    reveal_strlit("--read-data-subset");
    reveal_strlit("--keep-hourly");
    reveal_strlit("--keep-daily");
    reveal_strlit("--keep-weekly");
    reveal_strlit("--keep-monthly");
    reveal_strlit("--keep-yearly");
    assert("--keep-hourly"@[7] == 'h');
    assert("--keep-weekly"@[7] == 'w');
    assert("--keep-yearly"@[7] == 'y');
    assert("--keep-hourly"@.len() == 13 && "--keep-weekly"@.len() == 13 && "--keep-yearly"@.len()
        == 13);
    assert("--keep-daily"@.len() == 12 && "--keep-monthly"@.len() == 14);
    assert("--tag"@.len() == 5 && "--exclude"@.len() == 9 && "--read-data-subset"@.len() == 18);
    assert("--tag"@[0] == '-' && "check"@[0] == 'c' && "check"@.len() == 5);
    assert("backup"@[0] == 'b' && "backup"@.len() == 6);
    assert("forget"@[0] == 'f' && "forget"@.len() == 6);
    assert("--prune"@.len() == 7 && "--exclude-caches"@.len() == 16);
}

/// The forget command gives each keep option the value that the configuration holds for its
/// period, once, and the tag option the host; beside these it has `forget` and `--prune` alone.
pub proof fn law_forget_keeps_what_is_configured(config: Config)
    ensures
        ({
            let args = forget_command(config);
            &&& args.len() == 14
            &&& option_values(args, "--keep-hourly"@) == seq![config.keep_hourly@]
            &&& option_values(args, "--keep-daily"@) == seq![config.keep_daily@]
            &&& option_values(args, "--keep-weekly"@) == seq![config.keep_weekly@]
            &&& option_values(args, "--keep-monthly"@) == seq![config.keep_monthly@]
            &&& option_values(args, "--keep-yearly"@) == seq![config.keep_yearly@]
            &&& option_values(args, "--tag"@) == seq![config.hostname@]
            &&& option_values(args, "--exclude"@) == Seq::<Seq<char>>::empty()
            &&& plain_words(args) == seq!["forget"@, "--prune"@]
        }),
{
    lemma_forget_options(config, "--keep-hourly"@);
    lemma_forget_options(config, "--keep-daily"@);
    lemma_forget_options(config, "--keep-weekly"@);
    lemma_forget_options(config, "--keep-monthly"@);
    lemma_forget_options(config, "--keep-yearly"@);
    lemma_forget_options(config, "--tag"@);
    lemma_forget_options(config, "--exclude"@);
    lemma_option_words();
}

/// One value where `is`, none elsewhere.
spec fn given(is: bool, value: Seq<char>) -> Seq<Seq<char>> {
    if is {
        seq![value]
    } else {
        Seq::empty()
    }
}

/// What the forget command gives an option, in the order of the command.
proof fn lemma_forget_options(config: Config, option: Seq<char>)
    ensures
        option_values(forget_command(config), option) == given(
            option == "--tag"@,
            config.hostname@,
        ) + given(option == "--keep-hourly"@, config.keep_hourly@) + given(
            option == "--keep-daily"@,
            config.keep_daily@,
        ) + given(option == "--keep-weekly"@, config.keep_weekly@) + given(
            option == "--keep-monthly"@,
            config.keep_monthly@,
        ) + given(option == "--keep-yearly"@, config.keep_yearly@),
        plain_words(forget_command(config)) == seq!["forget"@, "--prune"@],
{
    lemma_option_words();
    let a = forget_command(config);
    let b = a.skip(1);
    let c = b.skip(1);
    let d = c.skip(2);
    let e = d.skip(2);
    let f = e.skip(2);
    let g = f.skip(2);
    let h = g.skip(2);
    let z = h.skip(2);
    assert(a[0] == "forget"@);
    assert(b[0] == "--prune"@);
    lemma_read_option(c, "--tag"@, config.hostname@, option);
    lemma_read_option(d, "--keep-hourly"@, config.keep_hourly@, option);
    lemma_read_option(e, "--keep-daily"@, config.keep_daily@, option);
    lemma_read_option(f, "--keep-weekly"@, config.keep_weekly@, option);
    lemma_read_option(g, "--keep-monthly"@, config.keep_monthly@, option);
    lemma_read_option(h, "--keep-yearly"@, config.keep_yearly@, option);
    assert(z.len() == 0);
    assert(plain_words(z) =~= Seq::<Seq<char>>::empty());
    assert(plain_words(b) =~= seq!["--prune"@]);
    assert(plain_words(a) =~= seq!["forget"@, "--prune"@]);
    assert(option_values(a, option) == option_values(b, option));
    assert(option_values(b, option) == option_values(c, option));
    assert(option_values(z, option) =~= Seq::<Seq<char>>::empty());
    assert(option_values(a, option) =~= given(option == "--tag"@, config.hostname@) + given(
        option == "--keep-hourly"@,
        config.keep_hourly@,
    ) + given(option == "--keep-daily"@, config.keep_daily@) + given(
        option == "--keep-weekly"@,
        config.keep_weekly@,
    ) + given(option == "--keep-monthly"@, config.keep_monthly@) + given(
        option == "--keep-yearly"@,
        config.keep_yearly@,
    ));
}

/// Configurations that differ in a retention, or in the host, have different forget commands.
pub proof fn law_forget_tells_configurations_apart(a: Config, b: Config)
    requires
        forget_command(a) == forget_command(b),
    ensures
        a.keep_hourly@ == b.keep_hourly@,
        a.keep_daily@ == b.keep_daily@,
        a.keep_weekly@ == b.keep_weekly@,
        a.keep_monthly@ == b.keep_monthly@,
        a.keep_yearly@ == b.keep_yearly@,
        a.hostname@ == b.hostname@,
{
    law_forget_keeps_what_is_configured(a);
    law_forget_keeps_what_is_configured(b);
    assert(seq![a.keep_hourly@][0] == seq![b.keep_hourly@][0]);
    assert(seq![a.keep_daily@][0] == seq![b.keep_daily@][0]);
    assert(seq![a.keep_weekly@][0] == seq![b.keep_weekly@][0]);
    assert(seq![a.keep_monthly@][0] == seq![b.keep_monthly@][0]);
    assert(seq![a.keep_yearly@][0] == seq![b.keep_yearly@][0]);
    assert(seq![a.hostname@][0] == seq![b.hostname@][0]);
}

/// The backup command backs up the configured source, tags the snapshot with the host, and leaves
/// out caches and the user's directory of caches, whatever the home directory, and nothing else.
pub proof fn law_backup_backs_up_source(config: Config)
    ensures
        ({
            let args = backup_command(config);
            let options = args.skip(2);
            &&& args.len() == 7
            &&& args[0] == "backup"@
            &&& args[1] == config.backup_source@
            &&& option_values(options, "--tag"@) == seq![config.hostname@]
            &&& option_values(options, "--exclude"@) == seq![
                joined(joined(config.home_dir@, "Library"@), "Caches"@),
            ]
            &&& plain_words(options) == seq!["--exclude-caches"@]
        }),
{
    lemma_option_words();
    let a = backup_command(config).skip(2);
    let b = a.skip(2);
    let c = b.skip(1);
    let z = c.skip(2);
    let caches = joined(joined(config.home_dir@, "Library"@), "Caches"@);
    lemma_read_option(a, "--tag"@, config.hostname@, "--tag"@);
    lemma_read_option(a, "--tag"@, config.hostname@, "--exclude"@);
    assert(b[0] == "--exclude-caches"@);
    lemma_read_option(c, "--exclude"@, caches, "--tag"@);
    lemma_read_option(c, "--exclude"@, caches, "--exclude"@);
    assert(z.len() == 0);
    assert(plain_words(z) =~= Seq::<Seq<char>>::empty());
    assert(plain_words(b) =~= seq!["--exclude-caches"@]);
    assert(option_values(z, "--tag"@) =~= Seq::<Seq<char>>::empty());
    assert(option_values(z, "--exclude"@) =~= Seq::<Seq<char>>::empty());
    assert(option_values(b, "--tag"@) == option_values(c, "--tag"@));
    assert(option_values(b, "--exclude"@) == option_values(c, "--exclude"@));
    assert(option_values(a, "--tag"@) =~= seq![config.hostname@]);
    assert(option_values(a, "--exclude"@) =~= seq![caches]);
}

/// The percentage of a raw text is its number with one percent sign: without the white space
/// around the text, from `lo` up to `hi`, and without the percent signs at its end, from
/// `number_end`.
pub proof fn law_percentage_keeps_number(raw: Seq<char>, lo: int, number_end: int, hi: int)
    requires
        0 <= lo <= number_end <= hi <= raw.len(),
        forall|i: int| 0 <= i < lo || hi <= i < raw.len() ==> is_white_space(#[trigger] raw[i]),
        lo < hi ==> !is_white_space(raw[lo]) && !is_white_space(raw[hi - 1]),
        forall|i: int| number_end <= i < hi ==> #[trigger] raw[i] == '%',
        lo < number_end ==> raw[number_end - 1] != '%',
    ensures
        percentage(raw) == raw.subrange(lo, number_end).push('%'),
{
    law_trimmed(raw, lo, hi);
    let t = raw.subrange(lo, hi);
    lemma_strip_back(t, Pattern::Exactly('%'), number_end - lo);
    assert(t.take(number_end - lo) =~= raw.subrange(lo, number_end));
    assert(percentage(raw) =~= raw.subrange(lo, number_end).push('%'));
}

/// The check command reads the configured share of the data, with one percent sign, and has no
/// other argument.
pub proof fn law_check_reads_configured_share(config: Config, lo: int, number_end: int, hi: int)
    requires
        ({
            let raw = config.check_percent@;
            &&& 0 <= lo <= number_end <= hi <= raw.len()
            &&& forall|i: int|
                0 <= i < lo || hi <= i < raw.len() ==> is_white_space(#[trigger] raw[i])
            &&& lo < hi ==> !is_white_space(raw[lo]) && !is_white_space(raw[hi - 1])
            &&& forall|i: int| number_end <= i < hi ==> #[trigger] raw[i] == '%'
            &&& lo < number_end ==> raw[number_end - 1] != '%'
        }),
    ensures
        ({
            let args = check_command(config);
            &&& args.len() == 3
            &&& option_values(args, "--read-data-subset"@) == seq![
                config.check_percent@.subrange(lo, number_end).push('%'),
            ]
            &&& plain_words(args) == seq!["check"@]
        }),
{
    lemma_option_words();
    law_percentage_keeps_number(config.check_percent@, lo, number_end, hi);
    let a = check_command(config);
    let b = a.skip(1);
    let z = b.skip(2);
    let subset = "--read-data-subset"@;
    assert(a[0] == "check"@);
    lemma_read_option(b, subset, percentage(config.check_percent@), subset);
    assert(z.len() == 0);
    assert(plain_words(z) =~= Seq::<Seq<char>>::empty());
    assert(option_values(z, subset) =~= Seq::<Seq<char>>::empty());
    assert(option_values(a, subset) == option_values(b, subset));
    assert(option_values(a, subset) =~= seq![percentage(config.check_percent@)]);
    assert(plain_words(a) =~= seq!["check"@]);
}

/// Where the user's first argument is `backup`, `check` or `forget`, alone or with others behind
/// it, restic gets all default arguments of that command, in front, then the user's other arguments
/// and nothing more.
pub proof fn law_defaults_are_never_left_out(config: Config, args: Seq<Seq<char>>)
    requires
        args.len() > 0,
        args[0] == "backup"@ || args[0] == "check"@ || args[0] == "forget"@,
    ensures
        ({
            let defaults = if args[0] == "backup"@ {
                backup_command(config)
            } else if args[0] == "check"@ {
                check_command(config)
            } else {
                forget_command(config)
            };
            let out = proxied(config, args);
            &&& default_command(config, args[0]) == Some(defaults)
            &&& defaults.is_prefix_of(out)
            &&& out.len() == defaults.len() + args.len() - 1
            &&& forall|i: int|
                1 <= i < args.len() ==> out[defaults.len() + i - 1] == #[trigger] args[i]
        }),
{
    lemma_option_words();
    let defaults = default_command(config, args[0])->0;
    let out = proxied(config, args);
    assert(defaults =~= out.subrange(0, defaults.len() as int));
    assert forall|i: int| 1 <= i < args.len() implies out[defaults.len() + i - 1]
        == #[trigger] args[i] by {
        assert(args.skip(1)[i - 1] == args[i]);
    }
}

/// Arguments that do not start with `backup`, `check` or `forget` reach restic as they are.
pub proof fn law_other_commands_are_untouched(config: Config, args: Seq<Seq<char>>)
    requires
        args.len() > 0 ==> args[0] != "backup"@ && args[0] != "check"@ && args[0] != "forget"@,
    ensures
        proxied(config, args) == args,
{
}

/// The user is told the reason of a failure in full: the command's own words, and for the lock the
/// words of the system behind a note on the lock.
pub proof fn law_failure_is_told_in_full(stage: RunStage, reason: String, step: RunStep)
    requires
        run_step(stage, Err(reason), step),
    ensures
        stage == RunStage::Command ==> step->notify->0@ == reason@,
        stage == RunStage::Lock ==> {
            let message = step->notify->0@;
            &&& "failed to acquire lock: "@.is_prefix_of(message)
            &&& message.skip("failed to acquire lock: "@.len() as int) == reason@
        },
{
    if stage == RunStage::Lock {
        let note = "failed to acquire lock: "@;
        let message = step->notify->0@;
        assert(note =~= message.subrange(0, note.len() as int));
        assert(message.skip(note.len() as int) =~= reason@);
    }
}

/// The words on a lock that cannot be had name the file and end with the reason.
pub proof fn law_lock_error_names_file(path: Seq<char>, reason: Seq<char>)
    ensures
        ({
            let words = lock_error(path, reason);
            let at = "lock error on "@.len() as int;
            let colon = at + path.len();
            &&& "lock error on "@.is_prefix_of(words)
            &&& words.subrange(at, colon) == path
            &&& words.subrange(colon, colon + 2) == seq![':', ' ']
            &&& words.skip(colon + 2) == reason
        }),
{
    reveal_strlit(": ");
    let words = lock_error(path, reason);
    let at = "lock error on "@.len() as int;
    let colon = at + path.len();
    assert("lock error on "@ =~= words.subrange(0, at));
    assert(words.subrange(at, colon) =~= path);
    assert(words.subrange(colon, colon + 2) =~= seq![':', ' ']);
    assert(words.skip(colon + 2) =~= reason);
}

} // verus!

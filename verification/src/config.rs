//! The settings of a run and the error that guards them.

use vstd::prelude::*;
use crate::text::{chars_of, has_prefix, parse_unsigned, parse_unsigned_spec, starts_with};

verus! {

/// The number of workers when none is asked for.
pub const DEFAULT_WORKERS: usize = 10;

/// The seconds allowed to one attempt when none are asked for.
pub const DEFAULT_TIMEOUT_SECS: u64 = 5;

/// The retry budget when none is asked for.
pub const DEFAULT_MAX_RETRIES: u32 = 2;

/// Why a configuration was refused.
#[derive(Debug, Clone, Copy, PartialEq, Eq, Structural)]
pub enum ConfigError {
    /// A run needs at least one worker.
    ZeroWorkers,
}

impl ConfigError {
    /// The error in words.
    pub fn message(&self) -> (text: String)
        ensures
            text@ == "worker count must be at least 1"@,
    {
        "worker count must be at least 1".to_owned()
    }
}

/// The settings of a run: how many workers share the endpoints, how long
/// one attempt may take, and how many times a failed endpoint is tried
/// again. There is always at least one worker.
#[derive(Debug, Clone, Copy, PartialEq, Eq)]
pub struct CheckConfig {
    worker_count: usize,
    timeout_secs: u64,
    max_retries: u32,
}

impl CheckConfig {
    /// The number of workers.
    pub closed spec fn workers(&self) -> nat {
        self.worker_count as nat
    }

    /// The seconds allowed to one attempt.
    pub closed spec fn timeout(&self) -> nat {
        self.timeout_secs as nat
    }

    /// The retry budget of each endpoint.
    pub closed spec fn retries(&self) -> nat {
        self.max_retries as nat
    }

    #[verifier::type_invariant]
    spec fn has_a_worker(&self) -> bool {
        self.worker_count >= 1
    }

    /// Makes a configuration, or refuses it when `worker_count` is zero.
    pub fn new(worker_count: usize, timeout_secs: u64, max_retries: u32) -> (made: Result<
        CheckConfig,
        ConfigError,
    >)
        ensures
            worker_count == 0 ==> made == Err::<CheckConfig, ConfigError>(ConfigError::ZeroWorkers),
            worker_count >= 1 ==> made is Ok && made->Ok_0.workers() == worker_count
                && made->Ok_0.timeout() == timeout_secs && made->Ok_0.retries() == max_retries,
    {
        if worker_count == 0 {
            Err(ConfigError::ZeroWorkers)
        } else {
            Ok(CheckConfig { worker_count, timeout_secs, max_retries })
        }
    }

    /// The number of workers, which is never zero.
    pub fn worker_count(&self) -> (count: usize)
        ensures
            count == self.workers(),
            count >= 1,
    {
        proof {
            use_type_invariant(self);
        }
        self.worker_count
    }

    /// The seconds allowed to one attempt.
    pub fn timeout_secs(&self) -> (secs: u64)
        ensures
            secs == self.timeout(),
    {
        self.timeout_secs
    }

    /// The retry budget of each endpoint.
    pub fn max_retries(&self) -> (retries: u32)
        ensures
            retries == self.retries(),
    {
        self.max_retries
    }
}

impl Default for CheckConfig {
    /// Ten workers, five seconds to an attempt, two retries.
    fn default() -> (config: CheckConfig)
        ensures
            config.workers() == DEFAULT_WORKERS,
            config.timeout() == DEFAULT_TIMEOUT_SECS,
            config.retries() == DEFAULT_MAX_RETRIES,
    {
        CheckConfig {
            worker_count: DEFAULT_WORKERS,
            timeout_secs: DEFAULT_TIMEOUT_SECS,
            max_retries: DEFAULT_MAX_RETRIES,
        }
    }
}

/// What the command line asks for: the endpoints in the order given, and
/// the three settings as they stand after the last flag.
#[derive(Debug, Clone, PartialEq, Eq)]
pub struct Arguments {
    pub urls: Vec<String>,
    pub workers: usize,
    pub timeout_secs: u64,
    pub max_retries: u32,
}

/// [`Arguments`] as a mathematical value.
pub struct ArgumentsView {
    pub urls: Seq<Seq<char>>,
    pub workers: nat,
    pub timeout_secs: nat,
    pub max_retries: nat,
}

impl View for Arguments {
    type V = ArgumentsView;

    open spec fn view(&self) -> ArgumentsView {
        ArgumentsView {
            urls: self.urls.deep_view(),
            workers: self.workers as nat,
            timeout_secs: self.timeout_secs as nat,
            max_retries: self.max_retries as nat,
        }
    }
}

/// The new value of a setting: the number that `text` writes, if it
/// writes one no greater than `max`, and the value in force if not.
pub open spec fn setting_from(text: Seq<char>, max: nat, in_force: nat) -> nat {
    match parse_unsigned_spec(text, max) {
        Some(value) => value,
        None => in_force,
    }
}

/// What stands behind the ten characters of a flag's name.
pub open spec fn flag_text(arg: Seq<char>) -> Seq<char> {
    arg.subrange(10, arg.len() as int)
}

/// The arguments after one more of them is read. `--workers=`,
/// `--timeout=` and `--retries=` set a value; a value that is not a number
/// in range leaves the setting as it stands. Anything else is an endpoint.
pub open spec fn read_argument(so_far: ArgumentsView, arg: Seq<char>) -> ArgumentsView {
    if has_prefix(arg, "--workers="@) {
        ArgumentsView {
            workers: setting_from(flag_text(arg), usize::MAX as nat, so_far.workers),
            ..so_far
        }
    } else if has_prefix(arg, "--timeout="@) {
        ArgumentsView {
            timeout_secs: setting_from(flag_text(arg), u64::MAX as nat, so_far.timeout_secs),
            ..so_far
        }
    } else if has_prefix(arg, "--retries="@) {
        ArgumentsView {
            max_retries: setting_from(flag_text(arg), u32::MAX as nat, so_far.max_retries),
            ..so_far
        }
    } else {
        ArgumentsView { urls: so_far.urls.push(arg), ..so_far }
    }
}

/// The arguments read from first to last, starting from the defaults and
/// no endpoints.
pub open spec fn read_arguments(args: Seq<Seq<char>>) -> ArgumentsView
    decreases args.len(),
{
    if args.len() == 0 {
        ArgumentsView {
            urls: Seq::empty(),
            workers: DEFAULT_WORKERS as nat,
            timeout_secs: DEFAULT_TIMEOUT_SECS as nat,
            max_retries: DEFAULT_MAX_RETRIES as nat,
        }
    } else {
        read_argument(read_arguments(args.drop_last()), args.last())
    }
}

/// Reads the arguments of the command line, the program's name left out.
pub fn parse_args(args: &Vec<String>) -> (parsed: Arguments)
    ensures
        parsed@ == read_arguments(args.deep_view()),
{
    let mut parsed = Arguments {
        urls: Vec::new(),
        workers: DEFAULT_WORKERS,
        timeout_secs: DEFAULT_TIMEOUT_SECS,
        max_retries: DEFAULT_MAX_RETRIES,
    };
    let ghost all = args.deep_view();
    proof {
        reveal_strlit("--workers=");
        reveal_strlit("--timeout=");
        reveal_strlit("--retries=");
        assert(all.take(0) == Seq::<Seq<char>>::empty());
        assert(parsed.urls.deep_view() == Seq::<Seq<char>>::empty());
    }
    let mut i: usize = 0;
    while i < args.len()
        invariant
            i <= args.len(),
            all == args.deep_view(),
            "--workers="@.len() == 10,
            "--timeout="@.len() == 10,
            "--retries="@.len() == 10,
            parsed@ == read_arguments(all.take(i as int)),
        decreases args.len() - i,
    {
        let chars = chars_of(args[i].as_str());
        let ghost before = parsed@;
        proof {
            assert(all.take(i + 1).drop_last() == all.take(i as int));
            assert(all.take(i + 1).last() == chars@);
        }
        if starts_with(&chars, "--workers=") {
            match parse_unsigned(&chars, 10, chars.len(), usize::MAX as u64) {
                Some(value) => {
                    parsed.workers = value as usize;
                },
                None => {},
            }
        } else if starts_with(&chars, "--timeout=") {
            match parse_unsigned(&chars, 10, chars.len(), u64::MAX) {
                Some(value) => {
                    parsed.timeout_secs = value;
                },
                None => {},
            }
        } else if starts_with(&chars, "--retries=") {
            match parse_unsigned(&chars, 10, chars.len(), u32::MAX as u64) {
                Some(value) => {
                    parsed.max_retries = value as u32;
                },
                None => {},
            }
        } else {
            parsed.urls.push(args[i].clone());
            assert(parsed.urls.deep_view() == before.urls.push(chars@));
        }
        assert(parsed@ == read_argument(before, chars@));
        i += 1;
    }
    assert(all.take(args.len() as int) == all);
    parsed
}

impl Arguments {
    /// The configuration that the arguments ask for, refused when they ask
    /// for no worker.
    pub fn config(&self) -> (made: Result<CheckConfig, ConfigError>)
        ensures
            self.workers == 0 ==> made == Err::<CheckConfig, ConfigError>(ConfigError::ZeroWorkers),
            self.workers >= 1 ==> made is Ok && made->Ok_0.workers() == self.workers
                && made->Ok_0.timeout() == self.timeout_secs && made->Ok_0.retries()
                == self.max_retries,
    {
        CheckConfig::new(self.workers, self.timeout_secs, self.max_retries)
    }
}

} // verus!

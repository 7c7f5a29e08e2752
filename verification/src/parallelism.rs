//! How many threads the parallel parts of inference use.
//!
//! By default half of the available cores (rounded up, at least one) are
//! used, which keeps the machine responsive during inference. `--threads n`
//! asks for exactly `n` threads, `--parallelism pct` for a percentage of the
//! cores (that float computation is done by the caller), and `--no-parallel`
//! turns parallelism off altogether.
use vstd::prelude::*;

use crate::cli::{spec_flag_value, spec_has_flag, spec_parse_unsigned, flag_value, has_flag, parse_unsigned};
use crate::vocab_index::views;

verus! {

/// Configuration of the thread pool.
#[derive(Debug, Clone)]
pub struct ParallelismConfig {
    /// Number of threads to use. `None` means use all available cores.
    pub num_threads: Option<usize>,
    /// Whether parallelism is disabled entirely.
    pub disabled: bool,
    /// Whether to use the sequential (non-optimized) attention implementation.
    pub sequential: bool,
}

/// Half of the available cores, rounded up, and at least one.
pub open spec fn half_of_cores(available: nat) -> nat {
    if available == 0 {
        1
    } else {
        (available + 1) / 2
    }
}

/// Half of the available cores, rounded up, and at least one.
pub fn default_threads(available: usize) -> (r: usize)
    ensures
        r == half_of_cores(available as nat),
        r >= 1,
{
    if available == 0 {
        1
    } else {
        available / 2 + available % 2
    }
}

/// Reports the number of logical cores, through `num_cpus::get`. The count
/// depends on the machine; `num_cpus` documents it as always at least one,
/// which is all that is stated of it.
#[verifier::external_body]
fn available_cores() -> (r: usize)
    ensures
        r >= 1,
{
    num_cpus::get()
}

/// What the command line asks of parallelism, before any percentage is
/// turned into a thread count.
#[derive(Debug, Clone)]
pub struct ParallelismArgs {
    /// `--no-parallel` is present.
    pub no_parallel: bool,
    /// The value of `--threads`, when it is a positive number.
    pub threads: Option<usize>,
    /// `--sequential` is present.
    pub sequential: bool,
}

/// The positive thread count that `--threads` gives, if any.
pub open spec fn spec_threads_arg(args: Seq<Seq<char>>) -> Option<usize> {
    match spec_flag_value(args, "--threads"@) {
        Some(v) => match spec_parse_unsigned(v, usize::MAX as nat) {
            Some(n) => if n > 0 {
                Some(n as usize)
            } else {
                None
            },
            None => None,
        },
        None => None,
    }
}

/// What the arguments ask of parallelism (see [`ParallelismArgs`]).
pub fn scan_parallelism_args(args: &[String]) -> (r: ParallelismArgs)
    ensures
        r.no_parallel == spec_has_flag(views(args@), "--no-parallel"@),
        r.threads == spec_threads_arg(views(args@)),
        r.sequential == spec_has_flag(views(args@), "--sequential"@),
{
    let threads = match flag_value(args, "--threads") {
        Some(v) => match parse_unsigned(v.as_str(), usize::MAX as u64) {
            Some(n) => if n > 0 {
                Some(n as usize)
            } else {
                None
            },
            None => None,
        },
        None => None,
    };
    ParallelismArgs {
        no_parallel: has_flag(args, "--no-parallel"),
        threads,
        sequential: has_flag(args, "--sequential"),
    }
}

/// The configuration the arguments give: with `--no-parallel`, one thread
/// and parallelism disabled (the thread options do not count; `--sequential`
/// still selects the sequential attention); otherwise
/// `default_threads`, replaced by the `--threads` count, replaced in turn by
/// the count that `--parallelism` gives (`percent_threads`), with the
/// `--sequential` flag.
pub open spec fn spec_configure(a: ParallelismArgs, default_threads: usize, percent_threads: Option<usize>) -> ParallelismConfig {
    if a.no_parallel {
        ParallelismConfig { num_threads: Some(1), disabled: true, sequential: a.sequential }
    } else {
        let n = match percent_threads {
            Some(p) => p,
            None => match a.threads {
                Some(t) => t,
                None => default_threads,
            },
        };
        ParallelismConfig { num_threads: Some(n), disabled: false, sequential: a.sequential }
    }
}

/// Every configuration the command line gives sets a thread count of at
/// least one: `--no-parallel` gives one, `--threads` is only taken when
/// positive, and the default and percentage counts are at least one.
pub proof fn lemma_configure_sets_at_least_one_thread(
    a: ParallelismArgs,
    default_threads: usize,
    percent_threads: Option<usize>,
)
    requires
        a.threads matches Some(t) ==> t >= 1,
        default_threads >= 1,
        percent_threads matches Some(p) ==> p >= 1,
    ensures
        spec_configure(a, default_threads, percent_threads).num_threads matches Some(n) && n >= 1,
{
}

impl ParallelismConfig {
    /// The default configuration for a machine with `available` cores: half
    /// of them, rounded up, at least one.
    pub fn default_for(available: usize) -> (r: ParallelismConfig)
        ensures
            r.num_threads == Some(half_of_cores(available as nat) as usize),
            !r.disabled,
            !r.sequential,
    {
        ParallelismConfig { num_threads: Some(default_threads(available)), disabled: false, sequential: false }
    }

    /// The configuration the scanned arguments give (see
    /// [`spec_configure`]).
    pub fn configure(a: &ParallelismArgs, default_threads: usize, percent_threads: Option<usize>) -> (r: ParallelismConfig)
        ensures
            r.num_threads == spec_configure(*a, default_threads, percent_threads).num_threads,
            r.disabled == spec_configure(*a, default_threads, percent_threads).disabled,
            r.sequential == spec_configure(*a, default_threads, percent_threads).sequential,
    {
        if a.no_parallel {
            return ParallelismConfig { num_threads: Some(1), disabled: true, sequential: a.sequential };
        }
        let n = match percent_threads {
            Some(p) => p,
            None => match a.threads {
                Some(t) => t,
                None => default_threads,
            },
        };
        ParallelismConfig { num_threads: Some(n), disabled: false, sequential: a.sequential }
    }

    /// The number of threads used when the thread count is known: one when
    /// disabled, else the configured count; `None` when no count is set.
    pub fn known_threads(&self) -> (r: Option<usize>)
        ensures
            self.disabled ==> r == Some(1usize),
            !self.disabled ==> r == self.num_threads,
    {
        if self.disabled {
            Some(1)
        } else {
            self.num_threads
        }
    }

    /// The number of threads used on a machine with `available` cores: one
    /// when disabled, else the configured count, else all the cores.
    pub open spec fn spec_effective_threads(self, available: usize) -> usize {
        if self.disabled {
            1
        } else {
            match self.num_threads {
                Some(n) => n,
                None => available,
            }
        }
    }

    /// The number of threads used on a machine with `available` cores (see
    /// [`ParallelismConfig::spec_effective_threads`]).
    pub fn effective_threads_for(&self, available: usize) -> (r: usize)
        ensures
            r == self.spec_effective_threads(available),
    {
        match self.known_threads() {
            Some(n) => n,
            None => available,
        }
    }

    /// The number of threads that will be used on this machine: one when
    /// disabled, else the configured count, else all its cores (as
    /// `num_cpus::get` reports them, at least one).
    pub fn effective_threads(&self) -> (r: usize)
        ensures
            exists|available: usize| available >= 1 && r == self.spec_effective_threads(available),
            self.disabled ==> r == 1,
            !self.disabled && self.num_threads is Some ==> r == self.num_threads->0,
            !self.disabled && self.num_threads is None ==> r >= 1,
    {
        let available = available_cores();
        self.effective_threads_for(available)
    }
}

impl Default for ParallelismConfig {
    /// Half of the machine's cores, rounded up, at least one.
    fn default() -> (r: ParallelismConfig)
        ensures
            r.num_threads matches Some(n) && n >= 1,
            !r.disabled,
            !r.sequential,
    {
        let available = available_cores();
        ParallelismConfig::default_for(available)
    }
}

/// How the thread count of a configuration came about, as shown to the user.
#[derive(Debug, Clone, Copy, PartialEq, Eq, Structural)]
pub enum ParallelismMode {
    /// Parallelism is disabled.
    Disabled,
    /// The count equals the number of cores.
    AllAvailable,
    /// The count is the default, half of the cores.
    DefaultHalf,
    /// The count was asked for.
    Explicit,
    /// No count is set (all cores are used).
    Unset,
}

/// The mode shown for a configuration on a machine with `available` cores.
pub open spec fn spec_parallelism_mode(c: ParallelismConfig, available: usize) -> ParallelismMode {
    if c.disabled {
        ParallelismMode::Disabled
    } else {
        match c.num_threads {
            Some(t) => if t == available {
                ParallelismMode::AllAvailable
            } else if t == half_of_cores(available as nat) {
                ParallelismMode::DefaultHalf
            } else {
                ParallelismMode::Explicit
            },
            None => ParallelismMode::Unset,
        }
    }
}

/// The mode shown for a configuration (see [`spec_parallelism_mode`]).
pub fn parallelism_mode(c: &ParallelismConfig, available: usize) -> (r: ParallelismMode)
    ensures
        r == spec_parallelism_mode(*c, available),
{
    if c.disabled {
        ParallelismMode::Disabled
    } else {
        match c.num_threads {
            Some(t) => if t == available {
                ParallelismMode::AllAvailable
            } else if t == default_threads(available) {
                ParallelismMode::DefaultHalf
            } else {
                ParallelismMode::Explicit
            },
            None => ParallelismMode::Unset,
        }
    }
}

/// The cores left idle by a configured count below the number of cores.
pub fn idle_cores(c: &ParallelismConfig, available: usize) -> (r: Option<usize>)
    ensures
        match r {
            Some(k) => !c.disabled && (c.num_threads matches Some(t) && t < available && k == available - t),
            None => c.disabled || !(c.num_threads matches Some(t) && t < available),
        },
{
    if c.disabled {
        return None;
    }
    match c.num_threads {
        Some(t) => if t < available {
            Some(available - t)
        } else {
            None
        },
        None => None,
    }
}

} // verus!

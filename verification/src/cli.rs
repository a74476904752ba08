//! Command line arguments and the verbosity rules derived from them.

use std::path::PathBuf;

use vstd::prelude::*;

verus! {

/// Severity threshold of the logger, from the quietest (`Off`) to the most
/// talkative (`Trace`).
#[derive(Debug, Clone, Copy, PartialEq, Eq, Structural)]
pub enum LevelFilter {
    Off,
    Error,
    Warn,
    Info,
    Debug,
    Trace,
}

impl LevelFilter {
    /// Position of the filter on the scale `Off` = 0 .. `Trace` = 5.
    pub open spec fn rank(self) -> nat {
        match self {
            LevelFilter::Off => 0,
            LevelFilter::Error => 1,
            LevelFilter::Warn => 2,
            LevelFilter::Info => 3,
            LevelFilter::Debug => 4,
            LevelFilter::Trace => 5,
        }
    }
}

/// The most talkative filter.
pub open spec fn max_rank() -> nat {
    5
}

/// `log::LevelFilter::increment_severity`: one step towards `Trace`, staying
/// at `Trace` when already there.
#[verifier::external_body]
fn increment_severity(f: LevelFilter) -> (r: LevelFilter)
    ensures
        r.rank() == if f.rank() < max_rank() { f.rank() + 1 } else { f.rank() },
{
    match (match f {
        LevelFilter::Off => log::LevelFilter::Off,
        LevelFilter::Error => log::LevelFilter::Error,
        LevelFilter::Warn => log::LevelFilter::Warn,
        LevelFilter::Info => log::LevelFilter::Info,
        LevelFilter::Debug => log::LevelFilter::Debug,
        LevelFilter::Trace => log::LevelFilter::Trace,
    }).increment_severity() {
        log::LevelFilter::Off => LevelFilter::Off,
        log::LevelFilter::Error => LevelFilter::Error,
        log::LevelFilter::Warn => LevelFilter::Warn,
        log::LevelFilter::Info => LevelFilter::Info,
        log::LevelFilter::Debug => LevelFilter::Debug,
        log::LevelFilter::Trace => LevelFilter::Trace,
    }
}

/// `log::LevelFilter::decrement_severity`: one step towards `Off`, staying at
/// `Off` when already there.
#[verifier::external_body]
fn decrement_severity(f: LevelFilter) -> (r: LevelFilter)
    ensures
        r.rank() == if f.rank() > 0 { f.rank() - 1 } else { 0 },
{
    match (match f {
        LevelFilter::Off => log::LevelFilter::Off,
        LevelFilter::Error => log::LevelFilter::Error,
        LevelFilter::Warn => log::LevelFilter::Warn,
        LevelFilter::Info => log::LevelFilter::Info,
        LevelFilter::Debug => log::LevelFilter::Debug,
        LevelFilter::Trace => log::LevelFilter::Trace,
    }).decrement_severity() {
        log::LevelFilter::Off => LevelFilter::Off,
        log::LevelFilter::Error => LevelFilter::Error,
        log::LevelFilter::Warn => LevelFilter::Warn,
        log::LevelFilter::Info => LevelFilter::Info,
        log::LevelFilter::Debug => LevelFilter::Debug,
        log::LevelFilter::Trace => LevelFilter::Trace,
    }
}

/// How often `-v` and `-q` were given on the command line.
#[derive(Debug, Clone, Copy)]
pub struct Verbosity {
    verbose: u8,
    quiet: u8,
}

/// Rank of the filter reached from `Info` by `verbose` steps up (saturating at
/// `Trace`) followed by `quiet` steps down (saturating at `Off`).
pub open spec fn filter_rank(verbose: nat, quiet: nat) -> nat {
    let up = raised_rank(verbose);
    if up > quiet { (up - quiet) as nat } else { 0 }
}

/// Rank reached from `Info` by `verbose` saturating steps towards `Trace`.
pub open spec fn raised_rank(verbose: nat) -> nat {
    if 3 + verbose < max_rank() { 3 + verbose } else { max_rank() }
}

impl Verbosity {
    pub fn new(verbose: u8, quiet: u8) -> (r: Verbosity)
        ensures
            r.verbose() == verbose,
            r.quiet() == quiet,
    {
        Verbosity { verbose, quiet }
    }

    /// How often `-v` was given.
    pub fn verbose_count(&self) -> (r: u8)
        ensures
            r == self.verbose(),
    {
        self.verbose
    }

    /// How often `-q` was given.
    pub fn quiet_count(&self) -> (r: u8)
        ensures
            r == self.quiet(),
    {
        self.quiet
    }

    pub closed spec fn verbose(self) -> u8 {
        self.verbose
    }

    pub closed spec fn quiet(self) -> u8 {
        self.quiet
    }

    /// The filter that should be applied to the logger: `Info`, raised once per
    /// `-v` and then lowered once per `-q`.
    pub fn filter(&self) -> (r: LevelFilter)
        ensures
            r.rank() == filter_rank(self.verbose() as nat, self.quiet() as nat),
    {
        let mut filter = LevelFilter::Info;
        let mut i: u8 = 0;
        while i < self.verbose
            invariant
                i <= self.verbose,
                filter.rank() == raised_rank(i as nat),
            decreases self.verbose - i,
        {
            filter = increment_severity(filter);
            i = i + 1;
        }
        let ghost up = filter.rank();
        let mut j: u8 = 0;
        while j < self.quiet
            invariant
                j <= self.quiet,
                up == raised_rank(self.verbose as nat),
                filter.rank() == if up > j { (up - j) as nat } else { 0 },
            decreases self.quiet - j,
        {
            filter = decrement_severity(filter);
            j = j + 1;
        }
        filter
    }
}

/// Law: without `-v` or `-q` the filter is `Info`; more `-v` never makes the
/// filter quieter, more `-q` never makes it more talkative, and the filter
/// stays within `Off`..`Trace`.
pub proof fn lemma_filter_monotone(v1: nat, v2: nat, q1: nat, q2: nat)
    requires
        v1 <= v2,
        q2 <= q1,
    ensures
        filter_rank(0, 0) == LevelFilter::Info.rank(),
        filter_rank(v1, q1) <= filter_rank(v2, q2),
        filter_rank(v1, q1) <= max_rank(),
{
}

#[verifier::external_type_specification]
#[verifier::external_body]
pub struct ExPathBuf(PathBuf);

/// Law: filters are ordered from `Off` (rank 0), through `Error`, `Warn`,
/// `Info` and `Debug`, to `Trace` (rank 5), one step apart; without `-v` or
/// `-q` the filter is `Info`; each further `-v` raises it one step unless it
/// is at `Trace`, and each `-q` lowers it one step unless it is at `Off`.
pub proof fn lemma_filter_steps(v: nat, q: nat)
    ensures
        LevelFilter::Off.rank() == 0,
        LevelFilter::Error.rank() == LevelFilter::Off.rank() + 1,
        LevelFilter::Warn.rank() == LevelFilter::Error.rank() + 1,
        LevelFilter::Info.rank() == LevelFilter::Warn.rank() + 1,
        LevelFilter::Debug.rank() == LevelFilter::Info.rank() + 1,
        LevelFilter::Trace.rank() == LevelFilter::Debug.rank() + 1,
        filter_rank(0, 0) == LevelFilter::Info.rank(),
        filter_rank(v + 1, 0) == if filter_rank(v, 0) < LevelFilter::Trace.rank() {
            filter_rank(v, 0) + 1
        } else {
            LevelFilter::Trace.rank()
        },
        filter_rank(v, q + 1) == if filter_rank(v, q) > 0 {
            filter_rank(v, q) - 1
        } else {
            0
        },
{
}

/// The command line of the program.
#[derive(Debug)]
pub struct Args {
    /// Port the plotter is connected to, such as `/dev/ttyUSB0` or `COM5`.
    pub port: String,
    /// Whether to home the plotter before drawing; otherwise the pen is
    /// expected to touch the paper already.
    pub homing: bool,
    /// Path of the SVG file to draw.
    pub file: PathBuf,
    pub verbosity: Verbosity,
}

} // verus!

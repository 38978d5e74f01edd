//! Performance helpers: a cache of resolved command paths, a timer, and
//! start-up settings.
use vstd::prelude::*;

use std::path::PathBuf;
use std::time::{Duration, Instant};

use crate::strmap::StrMap;

verus! {

#[verifier::external_type_specification]
#[verifier::external_body]
pub struct ExPathBuf(PathBuf);

#[verifier::external_type_specification]
#[verifier::external_body]
pub struct ExInstant(Instant);

/// `PathBuf::clone`: a copy of the path, equal to it.
#[verifier::external_body]
fn clone_path(p: &PathBuf) -> (r: PathBuf)
    ensures
        r == *p,
{
    p.clone()
}

/// The paths of commands, by command name.
pub struct CommandCache {
    paths: StrMap<PathBuf>,
}

impl View for CommandCache {
    type V = Map<Seq<char>, PathBuf>;

    closed spec fn view(&self) -> Map<Seq<char>, PathBuf> {
        self.paths@
    }
}

impl CommandCache {
    pub closed spec fn wf(&self) -> bool {
        self.paths.wf()
    }

    /// An empty cache.
    pub fn new() -> (r: Self)
        ensures
            r.wf(),
            r@ == Map::<Seq<char>, PathBuf>::empty(),
    {
        Self { paths: StrMap::new() }
    }

    /// The path cached for a command.
    pub fn get(&self, cmd: &str) -> (r: Option<PathBuf>)
        requires
            self.wf(),
        ensures
            r matches Some(p) ==> self@.contains_key(cmd@) && p == self@[cmd@],
            r is None ==> !self@.contains_key(cmd@),
    {
        match self.paths.get(cmd) {
            Some(p) => Some(clone_path(p)),
            None => None,
        }
    }

    /// Caches the path of a command, replacing any path cached for it.
    pub fn insert(&mut self, cmd: String, path: PathBuf)
        requires
            old(self).wf(),
        ensures
            final(self).wf(),
            final(self)@ == old(self)@.insert(cmd@, path),
    {
        self.paths.insert(cmd, path);
    }
}

/// `Instant::now`: the current time, as the clock reads it; nothing is
/// stated of the result, which depends on the clock.
#[verifier::external_body]
fn instant_now() -> Instant {
    Instant::now()
}

/// `Instant::elapsed`: the time since `start`, as the clock reads it;
/// nothing is stated of the result, which depends on the clock.
#[verifier::external_body]
fn instant_elapsed(start: &Instant) -> Duration {
    start.elapsed()
}

/// Measures how long an operation takes.
pub struct Profiler {
    start_time: Instant,
}

impl Profiler {
    /// Starts the clock.
    pub fn start() -> Self {
        Self { start_time: instant_now() }
    }

    /// The time since the clock started.
    pub fn elapsed(&self) -> Duration {
        instant_elapsed(&self.start_time)
    }
}

/// Start-up settings.
pub struct StartupOptimizer {
    pub lazy_load_builtins: bool,
}

impl StartupOptimizer {
    /// Built-ins load lazily.
    pub fn new() -> (r: Self)
        ensures
            r.lazy_load_builtins,
    {
        Self { lazy_load_builtins: true }
    }

    /// Prepares the environment for a fast start; there is nothing to prepare yet.
    pub fn optimize_env(&self) {
    }
}

} // verus!

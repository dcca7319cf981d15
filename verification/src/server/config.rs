//! Logging and management configuration, and which log messages each log
//! target takes.

use vstd::prelude::*;
use vstd::string::StrSliceExecFns;

verus! {

/// A client certificate fingerprint authorised to use the management interface.
#[derive(Debug)]
pub struct AuthorisedFingerprint {
    pub name: String,
    /// Lowercase hex SHA-1 fingerprint of the certificate
    pub fingerprint: String,
}

/// One of the built-in log targets.
#[derive(Clone, Copy, Debug, PartialEq, Eq, Structural)]
pub enum BuiltinLogTarget {
    Stdout,
    Stderr,
}

/// Where log messages go.
#[derive(Debug)]
pub enum LogTarget {
    /// A file, rotated daily, relative to the log directory
    File { filename: String },
    Builtin(BuiltinLogTarget),
}

/// Log levels, from the most verbose to none at all.
#[derive(Clone, Copy, Debug, PartialEq, Eq, Structural)]
pub enum LogLevel {
    Trace,
    Debug,
    Info,
    Warn,
    Error,
    Off,
}

/// How verbose a level is: `Off` lets nothing through, `Trace` everything.
pub open spec fn verbosity(l: LogLevel) -> int {
    match l {
        LogLevel::Off => 0,
        LogLevel::Error => 1,
        LogLevel::Warn => 2,
        LogLevel::Info => 3,
        LogLevel::Debug => 4,
        LogLevel::Trace => 5,
    }
}

/// How verbose a level is.
pub fn level_verbosity(l: LogLevel) -> (r: u8)
    ensures
        r == verbosity(l),
{
    match l {
        LogLevel::Off => 0,
        LogLevel::Error => 1,
        LogLevel::Warn => 2,
        LogLevel::Info => 3,
        LogLevel::Debug => 4,
        LogLevel::Trace => 5,
    }
}

/// A log target and the messages it takes.
#[derive(Debug)]
pub struct LogEntry {
    pub target: LogTarget,
    pub category: Option<String>,
    /// Module path prefixes; when not empty, only messages from modules with
    /// one of these prefixes are taken
    pub modules: Vec<String>,
    /// The most verbose level taken; every level when absent
    pub level: Option<LogLevel>,
}

/// Configuration of the management service.
#[derive(Debug)]
pub struct ManagementConfig {
    /// Listener address
    pub address: String,
    /// File holding the certificate authority for client certificates
    pub client_ca: String,
    pub authorised_fingerprints: Vec<AuthorisedFingerprint>,
}

/// The entry takes a message at `level` from module `module`: the level is
/// no more verbose than the entry's, and when the entry names modules, the
/// message's module, if known, starts with one of them.
pub open spec fn entry_takes(e: LogEntry, level: LogLevel, module: Option<Seq<char>>) -> bool {
    let max = match e.level {
        Some(l) => l,
        None => LogLevel::Trace,
    };
    &&& verbosity(level) <= verbosity(max)
    &&& (e.modules@.len() == 0 || match module {
        Some(m) => exists|i: int| 0 <= i < e.modules@.len() && m.take(e.modules@[i]@.len() as int) == e.modules@[i]@
            && e.modules@[i]@.len() <= m.len(),
        None => true,
    })
}

/// Levels are ordered by verbosity, from `Off` through `Error`, `Warn`,
/// `Info` and `Debug` to `Trace`; an entry that takes a message at some
/// level takes it at every less verbose level; an entry with no level takes
/// every level its modules allow; and an entry set to `Off` takes nothing
/// but messages at `Off`.
pub proof fn law_log_levels_ordered(e: LogEntry, l1: LogLevel, l2: LogLevel, module: Option<Seq<char>>)
    ensures
        verbosity(LogLevel::Off) < verbosity(LogLevel::Error),
        verbosity(LogLevel::Error) < verbosity(LogLevel::Warn),
        verbosity(LogLevel::Warn) < verbosity(LogLevel::Info),
        verbosity(LogLevel::Info) < verbosity(LogLevel::Debug),
        verbosity(LogLevel::Debug) < verbosity(LogLevel::Trace),
        entry_takes(e, l1, module) && verbosity(l2) <= verbosity(l1) ==> entry_takes(e, l2, module),
        e.level is None && entry_takes(e, l1, module) ==> entry_takes(e, LogLevel::Trace, module),
        e.level == Some(LogLevel::Off) && l1 != LogLevel::Off ==> !entry_takes(e, l1, module),
{
}

/// Whether `s` starts with `prefix`.
pub fn starts_with(s: &str, prefix: &str) -> (r: bool)
    ensures
        r == (prefix@.len() <= s@.len() && s@.take(prefix@.len() as int) == prefix@),
{
    let n = prefix.unicode_len();
    let m = s.unicode_len();
    if n > m {
        return false;
    }
    let mut i: usize = 0;
    while i < n
        invariant
            i <= n <= m,
            n == prefix@.len(),
            m == s@.len(),
            forall|j: int| 0 <= j < i ==> s@[j] == prefix@[j],
        decreases n - i,
    {
        if s.get_char(i) != prefix.get_char(i) {
            return false;
        }
        i = i + 1;
    }
    proof {
        assert(s@.take(n as int) =~= prefix@);
    }
    true
}

impl LogEntry {
    /// Whether this entry takes a message at `level` from module `module`.
    pub fn takes(&self, level: LogLevel, module: Option<&str>) -> (r: bool)
        ensures
            r == entry_takes(*self, level, match module { Some(m) => Some(m@), None => None }),
    {
        let max = match self.level {
            Some(l) => l,
            None => LogLevel::Trace,
        };
        if level_verbosity(level) > level_verbosity(max) {
            return false;
        }
        if self.modules.len() == 0 {
            return true;
        }
        match module {
            Some(m) => {
                let mut i: usize = 0;
                while i < self.modules.len()
                    invariant
                        i <= self.modules@.len(),
                        self.modules@.len() > 0,
                        module == Some(m),
                        verbosity(level) <= verbosity(match self.level { Some(l) => l, None => LogLevel::Trace }),
                        forall|j: int| 0 <= j < i ==> !(m@.take(self.modules@[j]@.len() as int) == self.modules@[j]@
                            && self.modules@[j]@.len() <= m@.len()),
                    decreases self.modules@.len() - i,
                {
                    if starts_with(m, self.modules[i].as_str()) {
                        proof {
                            let k = i as int;
                            assert(m@.take(self.modules@[k]@.len() as int) == self.modules@[k]@
                                && self.modules@[k]@.len() <= m@.len());
                        }
                        return true;
                    }
                    i = i + 1;
                }
                false
            },
            None => true,
        }
    }
}

} // verus!

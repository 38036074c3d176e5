//! The settings read from `cfg.toml` and the state kept in `cache.toml`.

use vstd::prelude::*;

verus! {

/// Seconds in a day: an update check is due once a day at most.
pub const UPDATE_CHECK_INTERVAL_SECS: u64 = 86400;

/// The size, position and theme of the window, kept between launches.
#[derive(Debug, PartialEq, Eq, Clone, Copy, Structural)]
pub struct WindowSection {
    pub dark: bool,
    pub win_w: u32,
    pub win_h: u32,
    pub win_x: i32,
    pub win_y: i32,
}

impl WindowSection {
    /// The window section used when the cache holds none.
    pub fn default() -> (r: WindowSection)
        ensures
            r == (WindowSection { dark: false, win_w: 580, win_h: 558, win_x: 64, win_y: 64 }),
    {
        WindowSection { dark: false, win_w: 580, win_h: 558, win_x: 64, win_y: 64 }
    }
}

/// The `[updates]` section of the configuration file.
#[derive(Debug, PartialEq, Eq, Clone, Copy, Structural)]
pub struct ConfigUpdateSection {
    pub check_updates: bool,
}

impl ConfigUpdateSection {
    /// Checking for updates is enabled unless the configuration says otherwise.
    pub fn default() -> (r: ConfigUpdateSection)
        ensures
            r.check_updates,
    {
        ConfigUpdateSection { check_updates: true }
    }
}

/// A moment of the system clock, as the whole seconds and the nanoseconds past
/// the Unix epoch.
#[derive(Debug, PartialEq, Eq, Clone, Copy, Structural)]
pub struct UnixTime {
    pub secs: u64,
    pub nanos: u32,
}

/// When the last update check happened, in seconds since the Unix epoch.
#[derive(Debug, PartialEq, Eq, Clone, Copy, Structural)]
pub struct CacheUpdateSection {
    pub last_checked: u64,
}

/// More than a day has passed between `last_checked` and `now`. A clock set before
/// the epoch counts as no time passed.
pub open spec fn update_due(last_checked: u64, now: Option<UnixTime>) -> bool {
    match now {
        None => false,
        Some(t) => t.secs - last_checked > UPDATE_CHECK_INTERVAL_SECS || (t.secs - last_checked
            == UPDATE_CHECK_INTERVAL_SECS && t.nanos > 0),
    }
}

/// Reads the system clock (`SystemTime::now().duration_since(UNIX_EPOCH)`): `None`
/// when the clock is set before the epoch. The reading depends on the time, so
/// nothing is stated of its value except that the nanoseconds stay below a second.
#[verifier::external_body]
fn unix_time_now() -> (r: Option<UnixTime>)
    ensures
        r matches Some(t) ==> t.nanos < 1_000_000_000,
{
    match std::time::SystemTime::now().duration_since(std::time::UNIX_EPOCH) {
        Ok(d) => Some(UnixTime { secs: d.as_secs(), nanos: d.subsec_nanos() }),
        Err(_) => None,
    }
}

impl CacheUpdateSection {
    /// No update check has happened yet.
    pub fn default() -> (r: CacheUpdateSection)
        ensures
            r.last_checked == 0,
    {
        CacheUpdateSection { last_checked: 0 }
    }

    /// Whether an update check is due at the moment `now`.
    pub fn update_check_needed_at(&self, now: Option<UnixTime>) -> (r: bool)
        requires
            now matches Some(t) ==> t.nanos < 1_000_000_000,
        ensures
            r == update_due(self.last_checked, now),
    {
        match now {
            None => false,
            Some(t) => {
                if t.secs < self.last_checked {
                    false
                } else {
                    let passed = t.secs - self.last_checked;
                    passed > UPDATE_CHECK_INTERVAL_SECS || (passed == UPDATE_CHECK_INTERVAL_SECS
                        && t.nanos > 0)
                }
            },
        }
    }

    /// Whether more than a day has passed since the last update check, by the
    /// system clock. The clock is read here, so only what holds of every reading is
    /// stated: a check is due only if some reading of the clock is more than a day
    /// after the last check.
    pub fn update_check_needed(&self) -> (r: bool)
        ensures
            r ==> exists|t: UnixTime| t.nanos < 1_000_000_000 && #[trigger] update_due(self.last_checked, Some(t)),
    {
        let now = unix_time_now();
        self.update_check_needed_at(now)
    }

    /// Records `now` as the time of the last update check; a clock set before the
    /// epoch records `0`.
    pub fn set_update_check_time_to(&mut self, now: Option<UnixTime>)
        ensures
            final(self).last_checked == (match now {
                Some(t) => t.secs,
                None => 0,
            }),
    {
        self.last_checked = match now {
            Some(t) => t.secs,
            None => 0,
        };
    }

    /// Records the current time as the time of the last update check. The clock is read
    /// here, so only what holds of every reading is stated: the time recorded is the
    /// whole seconds of a reading (`0` for a clock set before the epoch), and at that
    /// reading no check is due.
    pub fn set_update_check_time(&mut self)
        ensures
            exists|t: Option<UnixTime>|
                (t matches Some(u) ==> u.nanos < 1_000_000_000) && final(self).last_checked == (match t {
                    Some(u) => u.secs,
                    None => 0,
                }) && !#[trigger] update_due(final(self).last_checked, t),
    {
        let now = unix_time_now();
        self.set_update_check_time_to(now);
        assert(!update_due(self.last_checked, now));
    }
}

/// Everything kept in the cache file.
#[derive(Debug, PartialEq, Eq, Clone, Copy, Structural)]
pub struct Cache {
    pub window: WindowSection,
    pub updates: CacheUpdateSection,
}

/// The cache file as read, where either section may be missing.
#[derive(Debug, PartialEq, Eq, Clone, Copy, Structural)]
pub struct IncompleteCache {
    pub window: Option<WindowSection>,
    pub updates: Option<CacheUpdateSection>,
}

impl Cache {
    /// The cache of a first launch.
    pub fn default() -> (r: Cache)
        ensures
            r.window == (WindowSection { dark: false, win_w: 580, win_h: 558, win_x: 64, win_y: 64 }),
            r.updates.last_checked == 0,
    {
        Cache { window: WindowSection::default(), updates: CacheUpdateSection::default() }
    }

    /// Completes a cache file read from disk: a missing section takes its default.
    pub fn from(cache: IncompleteCache) -> (r: Cache)
        ensures
            r.window == (match cache.window {
                Some(w) => w,
                None => WindowSection { dark: false, win_w: 580, win_h: 558, win_x: 64, win_y: 64 },
            }),
            r.updates == (match cache.updates {
                Some(u) => u,
                None => CacheUpdateSection { last_checked: 0 },
            }),
    {
        let window = match cache.window {
            Some(w) => w,
            None => WindowSection::default(),
        };
        let updates = match cache.updates {
            Some(u) => u,
            None => CacheUpdateSection::default(),
        };
        Cache { window, updates }
    }
}

/// An environment variable given to a custom command.
#[derive(Debug, PartialEq, Eq, Clone)]
pub struct EnvVar {
    pub name: String,
    pub value: String,
}

/// A `[[commands]]` entry: a program run when one of its inputs is pressed.
#[derive(Debug, PartialEq, Eq, Clone)]
pub struct CustomCommand {
    pub input: Vec<String>,
    pub program: String,
    pub args: Option<Vec<String>>,
    pub envs: Option<Vec<EnvVar>>,
}

/// The configuration file. `bindings` lists each action name with its inputs, as the
/// `[bindings]` table holds them: every name at most once.
#[derive(Debug, PartialEq, Eq, Clone)]
pub struct Configuration {
    pub bindings: Option<Vec<(String, Vec<String>)>>,
    pub updates: Option<ConfigUpdateSection>,
    pub commands: Option<Vec<CustomCommand>>,
}

impl Configuration {
    /// The configuration used when there is no configuration file.
    pub fn default() -> (r: Configuration)
        ensures
            r.bindings is None,
            r.updates is None,
            r.commands is None,
    {
        Configuration { bindings: None, updates: None, commands: None }
    }

    /// Update checks run unless the `[updates]` section turns them off.
    pub fn check_updates_enabled(&self) -> (r: bool)
        ensures
            r == !(self.updates matches Some(u) && !u.check_updates),
    {
        match &self.updates {
            Some(u) => u.check_updates,
            None => true,
        }
    }
}

/// Right after the check time is set to the current time, no update check is due.
pub proof fn lemma_no_check_due_right_after_set(now: UnixTime)
    ensures
        !update_due(now.secs, Some(now)),
{
}

} // verus!

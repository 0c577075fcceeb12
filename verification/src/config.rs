//! Configuration surface: the structured input the core receives, the
//! role planned from it, and the file-name safety check used before a
//! configuration file is opened.
//!
//! Reading and deserialising the file itself is the application's job;
//! the library only works on the already-structured values.

use vstd::prelude::*;

verus! {

/// A configured destination for generated traffic.
///
/// Weights are held in thousandths of a unit (a weight of one and a half
/// is written `1500`) so that weighted selection is exact integer
/// arithmetic; a missing weight counts as zero.
#[derive(Clone, Debug)]
pub struct Target {
    pub address: String,
    pub port: Option<u16>,
    pub weight: Option<u64>,
}

/// Load-generation parameters shared by every role.
#[derive(Clone, Debug)]
pub struct LoadConfig {
    pub rps: usize,
    pub concurrency: usize,
    pub reuse_connection: Option<bool>,
    pub duration_seconds: Option<usize>,
    pub targets: Option<Vec<Target>>,
    pub payload: Option<String>,
}

/// Settings for the commander role: the central ingestion process.
#[derive(Clone, Debug)]
pub struct CommanderConfig {
    pub address: Option<String>,
    pub edges: Vec<String>,
}

/// Settings for the edge role: a traffic generator reporting to a
/// commander.
#[derive(Clone, Debug)]
pub struct EdgeConfig {
    pub commander_address: Option<String>,
}

/// The whole configuration: a mode selector plus per-role sections.
#[derive(Clone, Debug)]
pub struct Config {
    pub mode: String,
    pub load: LoadConfig,
    pub commander: Option<CommanderConfig>,
    pub edge: EdgeConfig,
}

/// The role a process runs in.
#[derive(Clone, Copy, Debug, PartialEq, Eq, Structural)]
pub enum Mode {
    Commander,
    Edge,
    Standalone,
}

/// A fatal misconfiguration, reported before any traffic is generated.
#[derive(Clone, Copy, Debug, PartialEq, Eq, Structural)]
pub enum ConfigError {
    /// The mode string is none of `commander`, `edge`, `standalone`.
    UnknownMode,
    /// Commander mode was selected but the commander section is absent.
    MissingCommanderSection,
}

/// Decides which role's loop a configuration starts, or the exact
/// misconfiguration that keeps the run from starting.
pub fn plan_role(config: &Config) -> (role: Result<Mode, ConfigError>)
    ensures
        role == Ok::<Mode, ConfigError>(Mode::Commander) <==> (config.mode@ == "commander"@
            && config.commander is Some),
        role == Ok::<Mode, ConfigError>(Mode::Edge) <==> config.mode@ == "edge"@,
        role == Ok::<Mode, ConfigError>(Mode::Standalone) <==> config.mode@ == "standalone"@,
        role == Err::<Mode, ConfigError>(ConfigError::MissingCommanderSection) <==> (
        config.mode@ == "commander"@ && config.commander is None),
        role == Err::<Mode, ConfigError>(ConfigError::UnknownMode) <==> (config.mode@
            != "commander"@ && config.mode@ != "edge"@ && config.mode@ != "standalone"@),
{
    proof {
        reveal_strlit("commander");
        reveal_strlit("edge");
        reveal_strlit("standalone");
        // The three mode words differ already in length.
        assert("commander"@.len() == 9);
        assert("edge"@.len() == 4);
        assert("standalone"@.len() == 10);
    }
    let commander_word = String::from_str("commander");
    let edge_word = String::from_str("edge");
    let standalone_word = String::from_str("standalone");
    if config.mode == commander_word {
        match &config.commander {
            Some(_) => Ok(Mode::Commander),
            None => Err(ConfigError::MissingCommanderSection),
        }
    } else if config.mode == edge_word {
        Ok(Mode::Edge)
    } else if config.mode == standalone_word {
        Ok(Mode::Standalone)
    } else {
        Err(ConfigError::UnknownMode)
    }
}

/// True when the load section names at least one target: an empty target
/// list is a fatal configuration error for traffic-generating roles,
/// checked once at startup.
pub fn has_targets(load: &LoadConfig) -> (r: bool)
    ensures
        r == (load.targets matches Some(ts) && ts@.len() > 0),
{
    match &load.targets {
        Some(ts) => ts.len() > 0,
        None => false,
    }
}

/// True when the segment of `s` starting at `i` is exactly `.`: a dot
/// followed by a separator or the end of the path.
pub open spec fn dot_segment_at(s: Seq<char>, i: int) -> bool {
    s[i] == '.' && (i + 1 == s.len() || s[i + 1] == '/')
}

/// Number of segment starts at positions at or after `i` that begin a
/// kept (non-`.`) segment; `after_sep` says whether position `i` follows
/// a separator or the start of the path.
pub open spec fn kept_segments_from(s: Seq<char>, i: int, after_sep: bool) -> nat
    decreases s.len() - i,
{
    if i < 0 || i >= s.len() {
        0
    } else {
        (if after_sep && s[i] != '/' && !dot_segment_at(s, i) {
            1nat
        } else {
            0nat
        }) + kept_segments_from(s, i + 1, s[i] == '/')
    }
}

/// Number of path components, following the platform's rules for Unix
/// paths: a leading `/` is a root component, repeated separators and a
/// trailing separator are ignored, and a `.` segment is dropped unless it
/// starts a relative path.
pub open spec fn component_count(s: Seq<char>) -> nat {
    (if s.len() > 0 && s[0] == '/' {
        1nat
    } else {
        0nat
    }) + (if s.len() > 0 && s[0] != '/' && dot_segment_at(s, 0) {
        1nat
    } else {
        0nat
    }) + kept_segments_from(s, 0, true)
}

/// Returns true if `name` is a simple file name, that is, a path of
/// exactly one component — the check applied to a configuration file
/// name before it is joined to the trusted base directory, so that a
/// crafted name cannot escape it.
pub fn is_simple_file_name(name: &str) -> (r: bool)
    ensures
        r == (component_count(name@) == 1),
{
    let n = name.unicode_len();
    let mut kept: u128 = 0;
    let mut i: usize = 0;
    let mut after_sep: bool = true;
    while i < n
        invariant
            n == name@.len(),
            0 <= i <= n,
            kept <= i,
            kept + kept_segments_from(name@, i as int, after_sep) == kept_segments_from(
                name@,
                0,
                true,
            ),
        decreases n - i,
    {
        let c = name.get_char(i);
        let is_dot_seg = c == '.' && (i + 1 == n || name.get_char(i + 1) == '/');
        if after_sep && c != '/' && !is_dot_seg {
            kept = kept + 1;
        }
        after_sep = c == '/';
        i = i + 1;
    }
    let mut total: u128 = kept;
    if n > 0 {
        let first = name.get_char(0);
        if first == '/' {
            total = total + 1;
        } else if first == '.' && (n == 1 || name.get_char(1) == '/') {
            total = total + 1;
        }
    }
    total == 1
}

} // verus!

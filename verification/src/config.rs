//! The configuration that the dispatch engine works on.
use vstd::prelude::*;
use vstd::string::*;

use crate::util::{split_cmd_trimmed, split_trimmed_spec, token_views};

verus! {

/// The poll interval, in milliseconds, that applies where none is configured.
pub const DEFAULT_INTERVAL_MS: u64 = 1000;

/// The kind of change seen on a path since the last poll.
#[derive(Debug, Clone, Copy, PartialEq, Eq, Structural)]
pub enum Transition {
    Unchanged,
    Created,
    Modified,
    Deleted,
}

/// A watched path together with the transitions that trigger on it.
#[derive(Debug, Clone)]
pub struct PathDetails {
    pub path: String,
    pub transitions: Vec<Transition>,
}

/// A command with its working directory and its execution mode.
#[derive(Debug, Clone)]
pub struct CommandDetails {
    pub cmd: String,
    pub cwd: Option<String>,
    pub exec_async: Option<bool>,
}

/// What an action watches: a bare path, or a path with chosen transitions.
#[derive(Debug, Clone)]
pub enum Target {
    Path(String),
    PathDetails(PathDetails),
}

/// What an action runs: a bare command line, or one with details.
#[derive(Debug, Clone)]
pub enum Command {
    Command(String),
    CommandDetails(CommandDetails),
}

/// A group of targets and the commands to run when one of them fires.
#[derive(Debug, Clone)]
pub struct Action {
    pub run_commands_on_startup: Option<bool>,
    pub startup_commands: Option<Vec<Command>>,
    pub targets: Vec<Target>,
    pub commands: Vec<Command>,
}

/// The poll interval and the named actions.
#[derive(Debug, Clone)]
pub struct Config {
    pub check_interval_ms: Option<u64>,
    pub actions: Vec<(String, Action)>,
}

/// `c` in lower case where it is one of the letters `A` to `Z`; `c` itself
/// otherwise.
pub open spec fn lower_ascii(c: char) -> char {
    if 'A' <= c <= 'Z' {
        ((c as u8) + 32) as char
    } else {
        c
    }
}

/// Whether `a` and `b` are the same text up to the case of the letters `A`
/// to `Z`.
pub open spec fn same_ignoring_case(a: Seq<char>, b: Seq<char>) -> bool {
    a.len() == b.len() && forall|k: int| 0 <= k < a.len() ==> lower_ascii(a[k]) == lower_ascii(b[k])
}

/// `c` in lower case where it is a capital among `A` to `Z`.
pub fn to_lower_ascii(c: char) -> (res: char)
    ensures
        res == lower_ascii(c),
{
    if 'A' <= c && c <= 'Z' {
        ((c as u8) + 32u8) as char
    } else {
        c
    }
}

/// Compares two texts without regard to the case of the letters `A` to `Z`.
pub fn eq_ignoring_case(a: &str, b: &str) -> (res: bool)
    ensures
        res == same_ignoring_case(a@, b@),
{
    let n: usize = a.unicode_len();
    if b.unicode_len() != n {
        return false;
    }
    let mut i: usize = 0;
    while i < n
        invariant
            n == a@.len(),
            n == b@.len(),
            i <= n,
            forall|k: int| 0 <= k < i ==> lower_ascii(a@[k]) == lower_ascii(b@[k]),
        decreases n - i,
    {
        if to_lower_ascii(a.get_char(i)) != to_lower_ascii(b.get_char(i)) {
            return false;
        }
        i += 1;
    }
    true
}

impl Transition {
    /// The transition that `name` stands for: its canonical name in any
    /// mix of upper and lower case.
    pub open spec fn parse_spec(name: Seq<char>) -> Option<Transition> {
        if same_ignoring_case(name, "none"@) {
            Some(Transition::Unchanged)
        } else if same_ignoring_case(name, "created"@) {
            Some(Transition::Created)
        } else if same_ignoring_case(name, "modified"@) {
            Some(Transition::Modified)
        } else if same_ignoring_case(name, "deleted"@) {
            Some(Transition::Deleted)
        } else {
            None
        }
    }

    /// Reads a transition from its configured name, whatever the case of
    /// its letters.
    pub fn from_name(name: &str) -> (res: Option<Transition>)
        ensures
            res == Transition::parse_spec(name@),
    {
        if eq_ignoring_case(name, "none") {
            Some(Transition::Unchanged)
        } else if eq_ignoring_case(name, "created") {
            Some(Transition::Created)
        } else if eq_ignoring_case(name, "modified") {
            Some(Transition::Modified)
        } else if eq_ignoring_case(name, "deleted") {
            Some(Transition::Deleted)
        } else {
            None
        }
    }

    /// The canonical lower-case name.
    pub open spec fn name(self) -> Seq<char> {
        match self {
            Transition::Unchanged => "none"@,
            Transition::Created => "created"@,
            Transition::Modified => "modified"@,
            Transition::Deleted => "deleted"@,
        }
    }
}

impl Target {
    /// The watched path.
    pub open spec fn path_spec(self) -> Seq<char> {
        match self {
            Target::Path(p) => p@,
            Target::PathDetails(d) => d.path@,
        }
    }

    /// Whether transition `t` of the watched path triggers: on a bare path
    /// every change does, on a detailed target the listed transitions do.
    pub open spec fn matches_spec(self, t: Transition) -> bool {
        match self {
            Target::Path(_) => t != Transition::Unchanged,
            Target::PathDetails(d) => d.transitions@.contains(t),
        }
    }

    pub fn path(&self) -> (res: &str)
        ensures
            res@ == self.path_spec(),
    {
        match self {
            Target::Path(p) => p.as_str(),
            Target::PathDetails(d) => d.path.as_str(),
        }
    }

    pub fn matches_transition(&self, t: Transition) -> (res: bool)
        ensures
            res == self.matches_spec(t),
    {
        match self {
            Target::Path(_) => t != Transition::Unchanged,
            Target::PathDetails(d) => {
                let mut i: usize = 0;
                while i < d.transitions.len()
                    invariant
                        i <= d.transitions.len(),
                        *self == Target::PathDetails(*d),
                        forall|k: int| 0 <= k < i ==> d.transitions@[k] != t,
                    decreases d.transitions.len() - i,
                {
                    if d.transitions[i] == t {
                        assert(d.transitions@[i as int] == t);
                        return true;
                    }
                    i += 1;
                }
                false
            },
        }
    }
}

/// Reading a transition's canonical name gives the transition back.
pub proof fn lemma_name_round_trip(t: Transition)
    ensures
        Transition::parse_spec(t.name()) == Some(t),
{
    reveal_strlit("none");
    reveal_strlit("created");
    reveal_strlit("modified");
    reveal_strlit("deleted");
    if t == Transition::Deleted {
        assert(lower_ascii("deleted"@[0]) != lower_ascii("created"@[0]));
    }
}

/// Two names that differ in the case of their letters only stand for the
/// same transition.
pub proof fn lemma_parse_ignores_case(a: Seq<char>, b: Seq<char>)
    requires
        same_ignoring_case(a, b),
    ensures
        Transition::parse_spec(a) == Transition::parse_spec(b),
{
    assert forall|w: Seq<char>| same_ignoring_case(a, w) == same_ignoring_case(b, w) by {
        if a.len() == w.len() {
            if same_ignoring_case(a, w) {
                assert forall|k: int| 0 <= k < b.len() implies lower_ascii(b[k]) == lower_ascii(
                    w[k],
                ) by {
                    assert(lower_ascii(a[k]) == lower_ascii(b[k]));
                }
            }
            if same_ignoring_case(b, w) {
                assert forall|k: int| 0 <= k < a.len() implies lower_ascii(a[k]) == lower_ascii(
                    w[k],
                ) by {
                    assert(lower_ascii(a[k]) == lower_ascii(b[k]));
                }
            }
        }
    }
}

/// A bare path takes every change, and only a change: created, modified
/// and deleted, not the report that nothing happened.
pub proof fn lemma_bare_path_takes_every_change(path: String, t: Transition)
    ensures
        Target::Path(path).matches_spec(t) <==> t != Transition::Unchanged,
        Target::Path(path).matches_spec(Transition::Created),
        Target::Path(path).matches_spec(Transition::Modified),
        Target::Path(path).matches_spec(Transition::Deleted),
{
}

/// A target with details takes exactly the transitions that it lists.
pub proof fn lemma_detailed_target_takes_listed(d: PathDetails, t: Transition)
    ensures
        Target::PathDetails(d).matches_spec(t) <==> exists|k: int|
            0 <= k < d.transitions@.len() && d.transitions@[k] == t,
{
}

/// The notations in which a configuration file may be written.
#[derive(Debug, Clone, Copy, PartialEq, Eq, Structural)]
pub enum ConfigFormat {
    Yaml,
    Toml,
    Json,
}

/// Whether two texts are the same, character by character.
pub fn same_text(a: &str, b: &str) -> (res: bool)
    ensures
        res == (a@ == b@),
{
    let n: usize = a.unicode_len();
    if b.unicode_len() != n {
        return false;
    }
    let mut i: usize = 0;
    while i < n
        invariant
            n == a@.len(),
            n == b@.len(),
            i <= n,
            forall|k: int| 0 <= k < i ==> a@[k] == b@[k],
        decreases n - i,
    {
        if a.get_char(i) != b.get_char(i) {
            return false;
        }
        i += 1;
    }
    assert(a@ =~= b@);
    true
}

impl ConfigFormat {
    /// The notation that a file name extension stands for: `yml` and `yaml`,
    /// `toml`, `json`, in exactly this spelling.
    pub open spec fn of_extension(ext: Seq<char>) -> Option<ConfigFormat> {
        if ext == "yml"@ || ext == "yaml"@ {
            Some(ConfigFormat::Yaml)
        } else if ext == "toml"@ {
            Some(ConfigFormat::Toml)
        } else if ext == "json"@ {
            Some(ConfigFormat::Json)
        } else {
            None
        }
    }

    /// The notation of a configuration file with this extension, or `None`
    /// where the extension is not one of a known notation.
    pub fn from_extension(ext: &str) -> (res: Option<ConfigFormat>)
        ensures
            res == ConfigFormat::of_extension(ext@),
    {
        if same_text(ext, "yml") || same_text(ext, "yaml") {
            Some(ConfigFormat::Yaml)
        } else if same_text(ext, "toml") {
            Some(ConfigFormat::Toml)
        } else if same_text(ext, "json") {
            Some(ConfigFormat::Json)
        } else {
            None
        }
    }
}

impl Config {
    /// Whether no two actions have the same name.
    pub open spec fn wf(self) -> bool {
        forall|i: int, j: int|
            0 <= i < j < self.actions@.len() ==> self.actions@[i].0@ != self.actions@[j].0@
    }

    /// Whether no two actions have the same name.
    pub fn has_unique_names(&self) -> (res: bool)
        ensures
            res == self.wf(),
    {
        let mut j: usize = 0;
        while j < self.actions.len()
            invariant
                j <= self.actions.len(),
                forall|a: int, b: int| 0 <= a < b < j ==> self.actions@[a].0@ != self.actions@[b].0@,
            decreases self.actions.len() - j,
        {
            let mut i: usize = 0;
            while i < j
                invariant
                    i <= j < self.actions.len(),
                    forall|a: int| 0 <= a < i ==> self.actions@[a].0@ != self.actions@[j as int].0@,
                decreases j - i,
            {
                if self.actions[i].0 == self.actions[j].0 {
                    return false;
                }
                i += 1;
            }
            j += 1;
        }
        true
    }

    /// The time between two polls, in milliseconds.
    pub fn interval_ms(&self) -> (res: u64)
        ensures
            res == match self.check_interval_ms {
                Some(ms) => ms,
                None => DEFAULT_INTERVAL_MS,
            },
    {
        match self.check_interval_ms {
            Some(ms) => ms,
            None => DEFAULT_INTERVAL_MS,
        }
    }
}

impl Command {
    /// The command line as configured.
    pub open spec fn command_spec(self) -> Seq<char> {
        match self {
            Command::Command(c) => c@,
            Command::CommandDetails(d) => d.cmd@,
        }
    }

    /// The working directory: the configured one, else `./`.
    pub open spec fn cwd_spec(self) -> Seq<char> {
        match self {
            Command::CommandDetails(d) if d.cwd is Some => d.cwd->0@,
            _ => "./"@,
        }
    }

    /// Whether the command is started without waiting for it to end.
    pub open spec fn is_async_spec(self) -> bool {
        match self {
            Command::CommandDetails(d) => d.exec_async == Some(true),
            _ => false,
        }
    }

    pub fn command(&self) -> (res: &str)
        ensures
            res@ == self.command_spec(),
    {
        match self {
            Command::Command(c) => c.as_str(),
            Command::CommandDetails(d) => d.cmd.as_str(),
        }
    }

    /// The arguments of the command line, quotes stripped.
    pub fn split_command(&self) -> (res: Vec<&str>)
        ensures
            token_views(res@) == split_trimmed_spec(self.command_spec()),
    {
        split_cmd_trimmed(self.command())
    }

    pub fn cwd(&self) -> (res: String)
        ensures
            res@ == self.cwd_spec(),
    {
        match self {
            Command::Command(_) => "./".to_owned(),
            Command::CommandDetails(d) => match &d.cwd {
                Some(dir) => dir.clone(),
                None => "./".to_owned(),
            },
        }
    }

    pub fn is_async(&self) -> (res: bool)
        ensures
            res == self.is_async_spec(),
    {
        match self {
            Command::Command(_) => false,
            Command::CommandDetails(d) => match d.exec_async {
                Some(a) => a,
                None => false,
            },
        }
    }
}

} // verus!

//! The order in which the commands of one list are started, and what each
//! start is made of.
use vstd::prelude::*;
use vstd::string::*;

use crate::config::Command;
use crate::util::{split_trimmed_spec, token_views};

verus! {

/// One process to start: a command of the list, split into its parts.
#[derive(Debug, Clone)]
pub struct Invocation<'a> {
    /// The position of the command in its list.
    pub index: usize,
    /// The executable: the first token of the command line.
    pub program: &'a str,
    /// The arguments: the tokens behind the first.
    pub args: Vec<&'a str>,
    /// The working directory.
    pub cwd: String,
    /// Whether the process is left running while the list goes on.
    pub detached: bool,
}

/// How far a run through a command list has come.
#[derive(Debug, Clone, Copy, PartialEq, Eq, Structural)]
pub enum Progress {
    /// The commands before this position are done with.
    At(usize),
    /// A command has failed: nothing more of the list is started.
    Aborted,
}

/// Whether a command has anything to start: its command line has a token.
pub open spec fn runnable(c: Command) -> bool {
    split_trimmed_spec(c.command_spec()).len() > 0
}

/// The position of the first runnable command at or behind `from`.
pub open spec fn first_runnable(cmds: Seq<Command>, from: int) -> Option<int>
    decreases cmds.len() - from,
{
    if from < 0 || from >= cmds.len() {
        None
    } else if runnable(cmds[from]) {
        Some(from)
    } else {
        first_runnable(cmds, from + 1)
    }
}

impl<'a> Invocation<'a> {
    /// Whether this is the start of command `c`: program and arguments are
    /// its tokens, the working directory and the mode are as it says.
    pub open spec fn starts(self, c: Command) -> bool {
        let tokens = split_trimmed_spec(c.command_spec());
        &&& tokens.len() > 0
        &&& self.program@ == tokens[0]
        &&& token_views(self.args@) == tokens.skip(1)
        &&& self.cwd@ == c.cwd_spec()
        &&& self.detached == c.is_async_spec()
    }
}

impl Progress {
    /// The position of the command that is started next, if any.
    pub open spec fn next_index(self, cmds: Seq<Command>) -> Option<int> {
        match self {
            Progress::At(from) => first_runnable(cmds, from as int),
            Progress::Aborted => None,
        }
    }

    /// Where a run stands after the command at `index`: behind it where the
    /// command could be started (and, unless detached, awaited), at its end
    /// where not.
    pub open spec fn after_spec(index: usize, succeeded: bool) -> Progress {
        if succeeded {
            Progress::At((index + 1) as usize)
        } else {
            Progress::Aborted
        }
    }

    /// The start of a run.
    pub fn begin() -> (res: Progress)
        ensures
            res == Progress::At(0),
    {
        Progress::At(0)
    }

    /// The next process to start: that of the first command from here on
    /// whose command line has a token. Commands without one are passed
    /// over. `None` where the list is done or the run was aborted.
    pub fn next<'a>(&self, cmds: &'a Vec<Command>) -> (res: Option<Invocation<'a>>)
        ensures
            match res {
                Some(inv) => {
                    &&& self.next_index(cmds@) == Some(inv.index as int)
                    &&& inv.index < cmds@.len()
                    &&& inv.starts(cmds@[inv.index as int])
                },
                None => self.next_index(cmds@) is None,
            },
    {
        match *self {
            Progress::Aborted => None,
            Progress::At(from) => {
                let mut i: usize = from;
                while i < cmds.len()
                    invariant
                        from <= i,
                        *self == Progress::At(from),
                        first_runnable(cmds@, from as int) == first_runnable(cmds@, i as int),
                    decreases cmds.len() - i,
                {
                    let cmd = &cmds[i];
                    let tokens = cmd.split_command();
                    if tokens.len() > 0 {
                        let ghost all = split_trimmed_spec(cmd.command_spec());
                        assert(token_views(tokens@).len() == tokens@.len());
                        let mut args: Vec<&'a str> = Vec::new();
                        let mut k: usize = 1;
                        while k < tokens.len()
                            invariant
                                1 <= k <= tokens.len(),
                                tokens@.len() == all.len(),
                                token_views(tokens@) == all,
                                token_views(args@) =~= all.subrange(1, k as int),
                            decreases tokens.len() - k,
                        {
                            assert(token_views(tokens@)[k as int] == tokens@[k as int]@);
                            let ghost prev = args@;
                            args.push(tokens[k]);
                            assert(token_views(args@) =~= token_views(prev).push(all[k as int]));
                            k += 1;
                        }
                        assert(all.subrange(1, k as int) =~= all.skip(1));
                        assert(token_views(tokens@)[0] == tokens@[0]@);
                        return Some(
                            Invocation {
                                index: i,
                                program: tokens[0],
                                args,
                                cwd: cmd.cwd(),
                                detached: cmd.is_async(),
                            },
                        );
                    }
                    i += 1;
                }
                None
            },
        }
    }

    /// Where the run stands once the outcome of the command at `index` is
    /// known: a command that could not be started, or failed while it was
    /// awaited, ends the run.
    pub fn after(index: usize, succeeded: bool) -> (res: Progress)
        requires
            index < usize::MAX,
        ensures
            res == Progress::after_spec(index, succeeded),
    {
        if succeeded {
            Progress::At(index + 1)
        } else {
            Progress::Aborted
        }
    }
}

/// After a command that failed nothing more is started, whatever the list
/// holds behind it.
pub proof fn lemma_failure_ends_run(cmds: Seq<Command>, index: usize)
    ensures
        Progress::after_spec(index, false).next_index(cmds) is None,
{
}

/// What is started next is the first runnable command from the current
/// position on: every command before it is passed over because its command
/// line has no token, and where nothing is started no command is runnable.
pub proof fn lemma_next_is_first_runnable(cmds: Seq<Command>, from: int)
    requires
        0 <= from,
    ensures
        match first_runnable(cmds, from) {
            Some(k) => {
                &&& from <= k < cmds.len()
                &&& runnable(cmds[k])
                &&& forall|j: int| from <= j < k ==> !runnable(#[trigger] cmds[j])
            },
            None => forall|j: int| from <= j < cmds.len() ==> !runnable(#[trigger] cmds[j]),
        },
    decreases cmds.len() - from,
{
    if from < cmds.len() && !runnable(cmds[from]) {
        lemma_next_is_first_runnable(cmds, from + 1);
    }
}

/// After a command that succeeded the run goes on behind it, detached or
/// not: the next command is the first runnable one behind it.
pub proof fn lemma_success_goes_on(cmds: Seq<Command>, index: usize)
    requires
        index < usize::MAX,
    ensures
        Progress::after_spec(index, true).next_index(cmds) == first_runnable(cmds, index + 1),
{
}

} // verus!

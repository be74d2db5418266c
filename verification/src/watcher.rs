//! The decisions of the dispatch engine: which actions are watched, what
//! runs at startup, and which actions a tick's changes trigger.
use vstd::prelude::*;
use vstd::string::*;

use crate::config::{Action, Command, Config, Target, Transition};
use crate::util::{token_views, transtion_to_string};

verus! {

/// Why watching cannot begin.
#[derive(Debug, Clone, Copy, PartialEq, Eq, Structural)]
pub enum WatchError {
    /// The name filter admits none of the configured actions.
    NoActions,
}

/// What one poll reports of one registered path: the path as the watcher
/// resolves it, where it can, and the change seen on it.
#[derive(Debug, Clone)]
pub struct Polled {
    pub path: Option<String>,
    pub transition: Transition,
}

/// One run of an action's commands that a change has triggered.
#[derive(Debug, Clone)]
pub struct Dispatch {
    /// The action, by its position in the configuration.
    pub action: usize,
    /// The path that changed.
    pub path: String,
    /// The change.
    pub transition: Transition,
}

/// One run of commands that is due before the first poll.
#[derive(Debug, Clone, Copy)]
pub struct StartupRun<'a> {
    /// The action, by its position in the configuration.
    pub action: usize,
    /// The commands to run.
    pub commands: &'a Vec<Command>,
}

/// What one tick asks for.
#[derive(Debug, Clone)]
pub struct Tick {
    /// The command runs to start, in order.
    pub dispatches: Vec<Dispatch>,
    /// The positions of the polled entries that report a change of a path
    /// that could not be resolved.
    pub unresolved: Vec<usize>,
}

impl View for Dispatch {
    type V = (usize, Seq<char>, Transition);

    open spec fn view(&self) -> (usize, Seq<char>, Transition) {
        (self.action, self.path@, self.transition)
    }
}

/// A sequence of dispatches as plain values.
pub open spec fn dispatch_views(v: Seq<Dispatch>) -> Seq<(usize, Seq<char>, Transition)> {
    v.map_values(|d: Dispatch| d@)
}

/// Whether the name filter lets an action of this name be watched: without
/// a filter every action is, with one those that it lists.
pub open spec fn filter_admits(filter: Option<Vec<String>>, name: Seq<char>) -> bool {
    match filter {
        None => true,
        Some(names) => exists|k: int| 0 <= k < names@.len() && (#[trigger] names@[k])@ == name,
    }
}

/// Whether `sel` lists, in rising order, exactly those of the first `n`
/// actions of `cfg` that the filter admits.
pub open spec fn selects_upto(
    cfg: Config,
    filter: Option<Vec<String>>,
    sel: Seq<usize>,
    n: int,
) -> bool {
    &&& forall|j: int|
        0 <= j < sel.len() ==> #[trigger] sel[j] < n && filter_admits(
            filter,
            cfg.actions@[sel[j] as int].0@,
        )
    &&& forall|j: int, k: int| 0 <= j < k < sel.len() ==> sel[j] < sel[k]
    &&& forall|i: int|
        0 <= i < n && filter_admits(filter, (#[trigger] cfg.actions@[i]).0@) ==> sel.contains(
            i as usize,
        )
}

/// Whether `sel` lists, in rising order, exactly the actions of `cfg` that
/// the filter admits.
pub open spec fn is_selection(cfg: Config, filter: Option<Vec<String>>, sel: Seq<usize>) -> bool {
    selects_upto(cfg, filter, sel, cfg.actions@.len() as int)
}

/// Whether the filter admits an action of this name.
pub fn is_selected(filter: &Option<Vec<String>>, name: &String) -> (res: bool)
    ensures
        res == filter_admits(*filter, name@),
{
    match filter {
        None => true,
        Some(names) => {
            let mut i: usize = 0;
            while i < names.len()
                invariant
                    i <= names.len(),
                    *filter == Some(*names),
                    forall|k: int| 0 <= k < i ==> names@[k]@ != name@,
                decreases names.len() - i,
            {
                if names[i] == *name {
                    assert(names@[i as int]@ == name@);
                    assert(filter->0 == *names);
                    assert(exists|k: int| 0 <= k < names@.len() && (#[trigger] names@[k])@ == name@);
                    return true;
                }
                i += 1;
            }
            false
        },
    }
}

/// The positions of the actions that the filter admits, in rising order.
pub fn select_actions(cfg: &Config, filter: &Option<Vec<String>>) -> (res: Vec<usize>)
    ensures
        is_selection(*cfg, *filter, res@),
{
    let mut sel: Vec<usize> = Vec::new();
    let mut i: usize = 0;
    while i < cfg.actions.len()
        invariant
            i <= cfg.actions.len(),
            selects_upto(*cfg, *filter, sel@, i as int),
        decreases cfg.actions.len() - i,
    {
        let ghost before = sel@;
        if is_selected(filter, &cfg.actions[i].0) {
            sel.push(i);
            assert(sel@[before.len() as int] == i);
            assert forall|m: int|
                0 <= m < i + 1 && filter_admits(
                    *filter,
                    (#[trigger] cfg.actions@[m]).0@,
                ) implies sel@.contains(m as usize) by {
                if m < i {
                    let j = choose|j: int| 0 <= j < before.len() && before[j] == m as usize;
                    assert(sel@[j] == m as usize);
                }
            }
        }
        i += 1;
    }
    sel
}

impl Action {
    /// The commands that run at startup: the startup list where there is
    /// one, else the regular commands where the startup flag is set, else
    /// none.
    pub open spec fn startup_spec(self) -> Option<Seq<Command>> {
        if self.startup_commands is Some {
            Some(self.startup_commands->0@)
        } else if self.run_commands_on_startup == Some(true) {
            Some(self.commands@)
        } else {
            None
        }
    }

    /// The paths of the targets, in order.
    pub open spec fn paths_spec(self) -> Seq<Seq<char>> {
        self.targets@.map_values(|t: Target| t.path_spec())
    }

    /// The commands that run at startup, if any.
    pub fn startup_list(&self) -> (res: Option<&Vec<Command>>)
        ensures
            match res {
                Some(list) => self.startup_spec() == Some(list@),
                None => self.startup_spec() is None,
            },
    {
        match &self.startup_commands {
            Some(list) => Some(list),
            None => match self.run_commands_on_startup {
                Some(true) => Some(&self.commands),
                _ => None,
            },
        }
    }
}

/// Whether `runs` are the command runs that are due at startup: one for
/// each watched action that has startup commands, with those commands, in
/// the order of the actions, and nothing else.
pub open spec fn is_startup_plan<'a>(cfg: Config, sel: Seq<usize>, runs: Seq<StartupRun<'a>>)
    -> bool {
    &&& forall|k: int|
        0 <= k < runs.len() ==> {
            &&& sel.contains((#[trigger] runs[k]).action)
            &&& runs[k].action < cfg.actions@.len()
            &&& cfg.actions@[runs[k].action as int].1.startup_spec() == Some(runs[k].commands@)
        }
    &&& forall|j: int, k: int| 0 <= j < k < runs.len() ==> runs[j].action < runs[k].action
    &&& forall|j: int|
        0 <= j < sel.len() && cfg.actions@[(#[trigger] sel[j]) as int].1.startup_spec() is Some
            ==> exists|k: int| 0 <= k < runs.len() && #[trigger] runs[k].action == sel[j]
}

/// A watched action with the startup flag set and no startup list has its
/// regular commands run at startup exactly once.
pub proof fn lemma_flagged_action_runs_once<'a>(
    cfg: Config,
    sel: Seq<usize>,
    runs: Seq<StartupRun<'a>>,
    j: int,
)
    requires
        is_startup_plan(cfg, sel, runs),
        0 <= j < sel.len(),
        cfg.actions@[sel[j] as int].1.run_commands_on_startup == Some(true),
        cfg.actions@[sel[j] as int].1.startup_commands is None,
    ensures
        exists|k: int|
            {
                &&& 0 <= k < runs.len()
                &&& (#[trigger] runs[k]).action == sel[j]
                &&& runs[k].commands@ == cfg.actions@[sel[j] as int].1.commands@
                &&& forall|m: int| 0 <= m < runs.len() && m != k ==> runs[m].action != sel[j]
            },
{
    let k = choose|k: int| 0 <= k < runs.len() && #[trigger] runs[k].action == sel[j];
    assert forall|m: int| 0 <= m < runs.len() && m != k implies runs[m].action != sel[j] by {
        if m < k {
            assert(runs[m].action < runs[k].action);
        } else {
            assert(runs[k].action < runs[m].action);
        }
    }
    assert(runs[k].action == sel[j]);
}

/// A watched action without startup commands runs nothing at startup.
pub proof fn lemma_plain_action_runs_nothing<'a>(
    cfg: Config,
    sel: Seq<usize>,
    runs: Seq<StartupRun<'a>>,
    j: int,
)
    requires
        is_startup_plan(cfg, sel, runs),
        0 <= j < sel.len(),
        cfg.actions@[sel[j] as int].1.startup_spec() is None,
    ensures
        forall|k: int| 0 <= k < runs.len() ==> (#[trigger] runs[k]).action != sel[j],
{
}

/// Whether a change `t` of `path` triggers on `target`: the paths are the
/// same text, and the target takes the transition.
pub open spec fn target_fires(target: Target, path: Seq<char>, t: Transition) -> bool {
    target.path_spec() == path && target.matches_spec(t)
}

/// How many of the first `n` of `targets` a change `t` of `path` triggers.
pub open spec fn fire_count(targets: Seq<Target>, path: Seq<char>, t: Transition, n: int) -> nat
    decreases n,
{
    if n <= 0 {
        0
    } else {
        fire_count(targets, path, t, n - 1) + if target_fires(targets[n - 1], path, t) {
            1nat
        } else {
            0nat
        }
    }
}

/// The runs of the action at position `index` that a change `t` of `path`
/// triggers: one for each of its targets that fires.
pub open spec fn action_dispatches(index: usize, action: Action, path: Seq<char>, t: Transition)
    -> Seq<(usize, Seq<char>, Transition)> {
    Seq::new(
        fire_count(action.targets@, path, t, action.targets@.len() as int),
        |k: int| (index, path, t),
    )
}

/// The runs that a change `t` of `path` triggers among the first `n`
/// selected actions, action by action.
pub open spec fn event_dispatches(
    cfg: Config,
    sel: Seq<usize>,
    path: Seq<char>,
    t: Transition,
    n: int,
) -> Seq<(usize, Seq<char>, Transition)>
    decreases n,
{
    if n <= 0 {
        Seq::empty()
    } else {
        event_dispatches(cfg, sel, path, t, n - 1) + action_dispatches(
            sel[n - 1],
            cfg.actions@[sel[n - 1] as int].1,
            path,
            t,
        )
    }
}

/// Whether a polled entry reports a change.
pub open spec fn is_event(p: Polled) -> bool {
    p.transition != Transition::Unchanged
}

/// The runs that one polled entry triggers: none where nothing changed or
/// the path is not resolved.
pub open spec fn polled_dispatches(cfg: Config, sel: Seq<usize>, p: Polled) -> Seq<
    (usize, Seq<char>, Transition),
> {
    if is_event(p) && p.path is Some {
        event_dispatches(cfg, sel, p.path->0@, p.transition, sel.len() as int)
    } else {
        Seq::empty()
    }
}

/// The runs that the first `n` entries of a poll trigger, entry by entry.
pub open spec fn tick_dispatches(cfg: Config, sel: Seq<usize>, polled: Seq<Polled>, n: int) -> Seq<
    (usize, Seq<char>, Transition),
>
    decreases n,
{
    if n <= 0 {
        Seq::empty()
    } else {
        tick_dispatches(cfg, sel, polled, n - 1) + polled_dispatches(cfg, sel, polled[n - 1])
    }
}

/// The paths of the targets of the first `n` selected actions, action by
/// action.
pub open spec fn registered_paths(cfg: Config, sel: Seq<usize>, n: int) -> Seq<Seq<char>>
    decreases n,
{
    if n <= 0 {
        Seq::empty()
    } else {
        registered_paths(cfg, sel, n - 1) + cfg.actions@[sel[n - 1] as int].1.paths_spec()
    }
}

/// Whether a target's path is the text `path`.
fn has_path(target: &Target, path: &String) -> (res: bool)
    ensures
        res == (target.path_spec() == path@),
{
    match target {
        Target::Path(p) => *p == *path,
        Target::PathDetails(d) => d.path == *path,
    }
}

/// Appends to `out` one run of `action` for each of its targets that the
/// change triggers.
fn fire_action(index: usize, action: &Action, path: &String, t: Transition, out: &mut Vec<Dispatch>)
    ensures
        dispatch_views(final(out)@) == dispatch_views(old(out)@) + action_dispatches(
            index,
            *action,
            path@,
            t,
        ),
{
    let ghost before = dispatch_views(out@);
    let mut k: usize = 0;
    while k < action.targets.len()
        invariant
            k <= action.targets.len(),
            dispatch_views(out@) =~= before + Seq::new(
                fire_count(action.targets@, path@, t, k as int),
                |j: int| (index, path@, t),
            ),
        decreases action.targets.len() - k,
    {
        let target = &action.targets[k];
        let ghost prev = out@;
        if has_path(target, path) && target.matches_transition(t) {
            let d = Dispatch { action: index, path: path.clone(), transition: t };
            assert(d@ == (index, path@, t));
            out.push(d);
            assert(dispatch_views(out@) =~= dispatch_views(prev).push((index, path@, t)));
        }
        k += 1;
    }
}

/// The actions that are watched, chosen once from a configuration.
pub struct Watch<'a> {
    cfg: &'a Config,
    selected: Vec<usize>,
}

impl<'a> Watch<'a> {
    /// The configuration.
    pub closed spec fn config(&self) -> Config {
        *self.cfg
    }

    /// The positions of the watched actions in the configuration.
    pub closed spec fn selection(&self) -> Seq<usize> {
        self.selected@
    }

    #[verifier::type_invariant]
    spec fn inv(&self) -> bool {
        &&& self.selected@.len() > 0
        &&& forall|j: int|
            0 <= j < self.selected@.len() ==> #[trigger] self.selected@[j] < self.cfg.actions@.len()
        &&& forall|j: int, k: int|
            0 <= j < k < self.selected@.len() ==> self.selected@[j] < self.selected@[k]
    }

    /// Chooses the actions to watch. Fails where the filter admits none of
    /// the configured actions; nothing is watched then.
    pub fn begin(cfg: &'a Config, filter: &Option<Vec<String>>) -> (res: Result<
        Watch<'a>,
        WatchError,
    >)
        ensures
            match res {
                Ok(w) => {
                    &&& w.config() == *cfg
                    &&& is_selection(*cfg, *filter, w.selection())
                    &&& w.selection().len() > 0
                },
                Err(e) => {
                    &&& e == WatchError::NoActions
                    &&& forall|i: int|
                        0 <= i < cfg.actions@.len() ==> !filter_admits(
                            *filter,
                            (#[trigger] cfg.actions@[i]).0@,
                        )
                },
            },
    {
        let selected = select_actions(cfg, filter);
        if selected.len() == 0 {
            assert forall|i: int| 0 <= i < cfg.actions@.len() implies !filter_admits(
                *filter,
                (#[trigger] cfg.actions@[i]).0@,
            ) by {
                if filter_admits(*filter, cfg.actions@[i].0@) {
                    assert(selected@.contains(i as usize));
                }
            }
            Err(WatchError::NoActions)
        } else {
            Ok(Watch { cfg, selected })
        }
    }

    /// The positions of the watched actions in the configuration, in rising
    /// order.
    pub fn actions(&self) -> (res: &Vec<usize>)
        ensures
            res@ == self.selection(),
            res@.len() > 0,
            forall|j: int| 0 <= j < res@.len() ==> #[trigger] res@[j] < self.config().actions@.len(),
            forall|j: int, k: int| 0 <= j < k < res@.len() ==> res@[j] < res@[k],
    {
        proof {
            use_type_invariant(self);
        }
        &self.selected
    }

    /// The paths to register with the watcher, in the order of registration:
    /// those of the targets of each watched action, action by action.
    pub fn paths(&self) -> (res: Vec<&'a str>)
        ensures
            token_views(res@) == registered_paths(
                self.config(),
                self.selection(),
                self.selection().len() as int,
            ),
    {
        proof {
            use_type_invariant(self);
        }
        let mut out: Vec<&'a str> = Vec::new();
        let mut j: usize = 0;
        while j < self.selected.len()
            invariant
                j <= self.selected.len(),
                forall|m: int|
                    0 <= m < self.selected@.len() ==> #[trigger] self.selected@[m]
                        < self.cfg.actions@.len(),
                token_views(out@) =~= registered_paths(*self.cfg, self.selected@, j as int),
            decreases self.selected.len() - j,
        {
            let action = &self.cfg.actions[self.selected[j]].1;
            let ghost before = token_views(out@);
            let mut k: usize = 0;
            while k < action.targets.len()
                invariant
                    k <= action.targets.len(),
                    token_views(out@) =~= before + action.paths_spec().take(k as int),
                decreases action.targets.len() - k,
            {
                let ghost prev = out@;
                out.push(action.targets[k].path());
                assert(token_views(out@) =~= token_views(prev).push(
                    action.targets@[k as int].path_spec(),
                ));
                k += 1;
                assert(action.paths_spec().take(k as int) =~= action.paths_spec().take(
                    k - 1,
                ).push(action.targets@[k - 1].path_spec()));
            }
            assert(action.paths_spec().take(k as int) =~= action.paths_spec());
            j += 1;
        }
        out
    }

    /// The command runs that are due before the first poll, in the order
    /// of the watched actions: one for each watched action that has startup
    /// commands, and none for the others.
    pub fn startup_runs(&self) -> (res: Vec<StartupRun<'a>>)
        ensures
            is_startup_plan(self.config(), self.selection(), res@),
    {
        proof {
            use_type_invariant(self);
        }
        let mut out: Vec<StartupRun<'a>> = Vec::new();
        let mut j: usize = 0;
        while j < self.selected.len()
            invariant
                j <= self.selected.len(),
                forall|m: int|
                    0 <= m < self.selected@.len() ==> #[trigger] self.selected@[m]
                        < self.cfg.actions@.len(),
                forall|m: int, k: int|
                    0 <= m < k < self.selected@.len() ==> self.selected@[m] < self.selected@[k],
                forall|k: int|
                    0 <= k < out@.len() ==> {
                        &&& exists|m: int| 0 <= m < j && self.selected@[m] == (#[trigger] out@[k]).action
                        &&& out@[k].action < self.cfg.actions@.len()
                        &&& self.cfg.actions@[out@[k].action as int].1.startup_spec() == Some(
                            out@[k].commands@,
                        )
                    },
                forall|m: int, k: int| 0 <= m < k < out@.len() ==> out@[m].action < out@[k].action,
                forall|m: int|
                    0 <= m < j && self.cfg.actions@[(#[trigger] self.selected@[m]) as int].1.startup_spec() is Some
                        ==> exists|k: int|
                        0 <= k < out@.len() && #[trigger] out@[k].action == self.selected@[m],
            decreases self.selected.len() - j,
        {
            let index: usize = self.selected[j];
            let ghost before = out@;
            match self.cfg.actions[index].1.startup_list() {
                Some(commands) => {
                    out.push(StartupRun { action: index, commands });
                    assert(out@[before.len() as int].action == index);
                    assert forall|m: int|
                        0 <= m < j + 1 && self.cfg.actions@[(
                        #[trigger] self.selected@[m]) as int].1.startup_spec() is Some implies exists|
                        k: int,
                    |
                        0 <= k < out@.len() && #[trigger] out@[k].action == self.selected@[m] by {
                        if m < j {
                            let k0 = choose|k: int|
                                0 <= k < before.len() && #[trigger] before[k].action
                                    == self.selected@[m];
                            assert(out@[k0].action == self.selected@[m]);
                        }
                    }
                },
                None => {},
            }
            j += 1;
        }
        proof {
            assert forall|k: int| 0 <= k < out@.len() implies self.selected@.contains(
                (#[trigger] out@[k]).action,
            ) by {
                let m = choose|m: int| 0 <= m < j && self.selected@[m] == out@[k].action;
                assert(self.selected@[m] == out@[k].action);
            }
        }
        out
    }

    /// What one poll triggers. Entries that report no change trigger
    /// nothing. A change of a path that is not resolved is reported and
    /// triggers nothing. Every other change starts one run for each target
    /// of each watched action that it fires, in the order of the entries,
    /// the actions and the targets.
    pub fn dispatch(&self, polled: &Vec<Polled>) -> (res: Tick)
        ensures
            dispatch_views(res.dispatches@) == tick_dispatches(
                self.config(),
                self.selection(),
                polled@,
                polled@.len() as int,
            ),
            forall|k: int|
                0 <= k < res.dispatches@.len() ==> (#[trigger] res.dispatches@[k]).action
                    < self.config().actions@.len(),
            forall|k: int|
                0 <= k < res.unresolved@.len() ==> {
                    &&& (#[trigger] res.unresolved@[k]) < polled@.len()
                    &&& is_event(polled@[res.unresolved@[k] as int])
                    &&& polled@[res.unresolved@[k] as int].path is None
                },
            forall|j: int, k: int|
                0 <= j < k < res.unresolved@.len() ==> res.unresolved@[j] < res.unresolved@[k],
            forall|e: int|
                0 <= e < polled@.len() && is_event(#[trigger] polled@[e]) && polled@[e].path is None
                    ==> res.unresolved@.contains(e as usize),
    {
        proof {
            use_type_invariant(self);
        }
        let mut dispatches: Vec<Dispatch> = Vec::new();
        let mut unresolved: Vec<usize> = Vec::new();
        let mut e: usize = 0;
        while e < polled.len()
            invariant
                e <= polled.len(),
                forall|m: int|
                    0 <= m < self.selected@.len() ==> #[trigger] self.selected@[m]
                        < self.cfg.actions@.len(),
                dispatch_views(dispatches@) =~= tick_dispatches(
                    *self.cfg,
                    self.selected@,
                    polled@,
                    e as int,
                ),
                forall|k: int|
                    0 <= k < unresolved@.len() ==> {
                        &&& (#[trigger] unresolved@[k]) < e
                        &&& is_event(polled@[unresolved@[k] as int])
                        &&& polled@[unresolved@[k] as int].path is None
                    },
                forall|j: int, k: int|
                    0 <= j < k < unresolved@.len() ==> unresolved@[j] < unresolved@[k],
                forall|m: int|
                    0 <= m < e && is_event(#[trigger] polled@[m]) && polled@[m].path is None
                        ==> unresolved@.contains(m as usize),
            decreases polled.len() - e,
        {
            let entry = &polled[e];
            if entry.transition != Transition::Unchanged {
                match &entry.path {
                    Some(path) => {
                        let ghost before = dispatch_views(dispatches@);
                        let mut j: usize = 0;
                        while j < self.selected.len()
                            invariant
                                j <= self.selected.len(),
                                forall|m: int|
                                    0 <= m < self.selected@.len() ==> #[trigger] self.selected@[m]
                                        < self.cfg.actions@.len(),
                                dispatch_views(dispatches@) =~= before + event_dispatches(
                                    *self.cfg,
                                    self.selected@,
                                    path@,
                                    entry.transition,
                                    j as int,
                                ),
                            decreases self.selected.len() - j,
                        {
                            let index: usize = self.selected[j];
                            fire_action(
                                index,
                                &self.cfg.actions[index].1,
                                path,
                                entry.transition,
                                &mut dispatches,
                            );
                            j += 1;
                        }
                    },
                    None => {
                        let ghost before = unresolved@;
                        unresolved.push(e);
                        assert(unresolved@[before.len() as int] == e);
                        assert forall|m: int|
                            0 <= m < e + 1 && is_event(#[trigger] polled@[m]) && polled@[m].path is None
                                implies unresolved@.contains(m as usize) by {
                            if m < e {
                                let k0 = choose|k: int|
                                    0 <= k < before.len() && before[k] == m as usize;
                                assert(unresolved@[k0] == m as usize);
                            }
                        }
                    },
                }
            }
            e += 1;
        }
        proof {
            lemma_tick_dispatches_sound(*self.cfg, self.selected@, polled@, polled@.len() as int);
            assert forall|k: int| 0 <= k < dispatches@.len() implies (#[trigger] dispatches@[k]).action
                < self.cfg.actions@.len() by {
                let d = tick_dispatches(*self.cfg, self.selected@, polled@, polled@.len() as int)[k];
                assert(d == dispatch_views(dispatches@)[k]);
                assert(is_triggered(*self.cfg, self.selected@, d));
                let j = choose|j: int| 0 <= j < self.selected@.len() && self.selected@[j] == d.0;
                assert(self.selected@[j] < self.cfg.actions@.len());
            }
        }
        Tick { dispatches, unresolved }
    }
}

/// An action with the startup flag set and no startup list runs its
/// regular commands at startup.
pub proof fn lemma_startup_flag_runs_regular_commands(a: Action)
    requires
        a.run_commands_on_startup == Some(true),
        a.startup_commands is None,
    ensures
        a.startup_spec() == Some(a.commands@),
{
}

/// An action with a startup list runs that list at startup, whatever its
/// flag; one with neither the flag set nor a list runs nothing.
pub proof fn lemma_startup_list_comes_first(a: Action)
    ensures
        a.startup_commands is Some ==> a.startup_spec() == Some(a.startup_commands->0@),
        a.startup_commands is None && a.run_commands_on_startup != Some(true)
            ==> a.startup_spec() is None,
{
}

/// Whether a run is owed to a change: its action is watched, and one of the
/// action's targets fires on the path and the transition that the run
/// names.
pub open spec fn is_triggered(cfg: Config, sel: Seq<usize>, d: (usize, Seq<char>, Transition))
    -> bool {
    &&& sel.contains(d.0)
    &&& exists|m: int|
        0 <= m < cfg.actions@[d.0 as int].1.targets@.len() && target_fires(
            #[trigger] cfg.actions@[d.0 as int].1.targets@[m],
            d.1,
            d.2,
        )
}

/// Whether a polled entry reports the change `t` of the resolved path
/// `path`.
pub open spec fn reports(p: Polled, path: Seq<char>, t: Transition) -> bool {
    is_event(p) && p.transition == t && p.path is Some && p.path->0@ == path
}

/// Where some of the first `n` targets fire, one of them can be named.
pub proof fn lemma_fires_somewhere(targets: Seq<Target>, path: Seq<char>, t: Transition, n: int)
    requires
        0 <= n <= targets.len(),
        fire_count(targets, path, t, n) > 0,
    ensures
        exists|m: int| 0 <= m < n && target_fires(#[trigger] targets[m], path, t),
    decreases n,
{
    if n > 0 {
        if target_fires(targets[n - 1], path, t) {
        } else {
            lemma_fires_somewhere(targets, path, t, n - 1);
            let m = choose|m: int| 0 <= m < n - 1 && target_fires(#[trigger] targets[m], path, t);
            assert(target_fires(targets[m], path, t));
        }
    }
}

/// Where one of the first `n` targets fires, the count is not 0.
pub proof fn lemma_firing_target_counts(
    targets: Seq<Target>,
    path: Seq<char>,
    t: Transition,
    n: int,
    m: int,
)
    requires
        0 <= m < n <= targets.len(),
        target_fires(targets[m], path, t),
    ensures
        fire_count(targets, path, t, n) > 0,
    decreases n,
{
    if m < n - 1 {
        lemma_firing_target_counts(targets, path, t, n - 1, m);
    }
}

/// Every run that a change triggers among the first `n` watched actions
/// names that change and an action that is watched and has a target that
/// fires on it.
pub proof fn lemma_event_dispatches_sound(
    cfg: Config,
    sel: Seq<usize>,
    path: Seq<char>,
    t: Transition,
    n: int,
)
    requires
        0 <= n <= sel.len(),
    ensures
        forall|k: int|
            0 <= k < event_dispatches(cfg, sel, path, t, n).len() ==> {
                let d = #[trigger] event_dispatches(cfg, sel, path, t, n)[k];
                d.1 == path && d.2 == t && is_triggered(cfg, sel, d)
            },
    decreases n,
{
    if n > 0 {
        lemma_event_dispatches_sound(cfg, sel, path, t, n - 1);
        let prev = event_dispatches(cfg, sel, path, t, n - 1);
        let action = cfg.actions@[sel[n - 1] as int].1;
        let here = action_dispatches(sel[n - 1], action, path, t);
        assert forall|k: int| 0 <= k < event_dispatches(cfg, sel, path, t, n).len() implies {
            let d = #[trigger] event_dispatches(cfg, sel, path, t, n)[k];
            d.1 == path && d.2 == t && is_triggered(cfg, sel, d)
        } by {
            let d = event_dispatches(cfg, sel, path, t, n)[k];
            if k < prev.len() {
                assert(d == prev[k]);
            } else {
                assert(d == here[k - prev.len()]);
                assert(d == (sel[n - 1], path, t));
                assert(sel[n - 1] == d.0);
                lemma_fires_somewhere(action.targets@, path, t, action.targets@.len() as int);
                let m = choose|m: int|
                    0 <= m < action.targets@.len() && target_fires(
                        #[trigger] action.targets@[m],
                        path,
                        t,
                    );
                assert(target_fires(cfg.actions@[d.0 as int].1.targets@[m], d.1, d.2));
            }
        }
    }
}

/// Nothing is dispatched without cause, and never for an entry that
/// reports no change: every run of a tick names a watched action, a path
/// and a transition other than "none" that one polled entry reports, and
/// a target of the action fires on them.
pub proof fn lemma_tick_dispatches_sound(cfg: Config, sel: Seq<usize>, polled: Seq<Polled>, n: int)
    requires
        0 <= n <= polled.len(),
    ensures
        forall|k: int|
            0 <= k < tick_dispatches(cfg, sel, polled, n).len() ==> {
                let d = #[trigger] tick_dispatches(cfg, sel, polled, n)[k];
                &&& d.2 != Transition::Unchanged
                &&& is_triggered(cfg, sel, d)
                &&& exists|e: int| 0 <= e < n && reports(#[trigger] polled[e], d.1, d.2)
            },
    decreases n,
{
    if n > 0 {
        lemma_tick_dispatches_sound(cfg, sel, polled, n - 1);
        let prev = tick_dispatches(cfg, sel, polled, n - 1);
        let p = polled[n - 1];
        let here = polled_dispatches(cfg, sel, p);
        assert forall|k: int| 0 <= k < tick_dispatches(cfg, sel, polled, n).len() implies {
            let d = #[trigger] tick_dispatches(cfg, sel, polled, n)[k];
            &&& d.2 != Transition::Unchanged
            &&& is_triggered(cfg, sel, d)
            &&& exists|e: int| 0 <= e < n && reports(#[trigger] polled[e], d.1, d.2)
        } by {
            let d = tick_dispatches(cfg, sel, polled, n)[k];
            if k < prev.len() {
                assert(d == prev[k]);
                let e = choose|e: int| 0 <= e < n - 1 && reports(#[trigger] polled[e], d.1, d.2);
                assert(reports(polled[e], d.1, d.2));
            } else {
                assert(d == here[k - prev.len()]);
                lemma_event_dispatches_sound(
                    cfg,
                    sel,
                    p.path->0@,
                    p.transition,
                    sel.len() as int,
                );
                assert(reports(polled[n - 1], d.1, d.2));
            }
        }
    }
}

/// A change that fires a target of one of the first `n` watched actions
/// triggers a run of that action.
pub proof fn lemma_event_dispatches_complete(
    cfg: Config,
    sel: Seq<usize>,
    path: Seq<char>,
    t: Transition,
    n: int,
    j: int,
    m: int,
)
    requires
        0 <= j < n <= sel.len(),
        0 <= m < cfg.actions@[sel[j] as int].1.targets@.len(),
        target_fires(cfg.actions@[sel[j] as int].1.targets@[m], path, t),
    ensures
        event_dispatches(cfg, sel, path, t, n).contains((sel[j], path, t)),
    decreases n,
{
    let prev = event_dispatches(cfg, sel, path, t, n - 1);
    let all = event_dispatches(cfg, sel, path, t, n);
    if j < n - 1 {
        lemma_event_dispatches_complete(cfg, sel, path, t, n - 1, j, m);
        let k = choose|k: int| 0 <= k < prev.len() && prev[k] == (sel[j], path, t);
        assert(all[k] == (sel[j], path, t));
    } else {
        let action = cfg.actions@[sel[j] as int].1;
        lemma_firing_target_counts(action.targets@, path, t, action.targets@.len() as int, m);
        let here = action_dispatches(sel[j], action, path, t);
        assert(here[0] == (sel[j], path, t));
        assert(all[prev.len() as int] == here[0]);
    }
}

/// No match is lost, and one change may trigger several actions: where one
/// of the first `n` polled entries reports a change of a resolved path that
/// fires a target of a watched action, the tick holds a run of that action
/// for that path and transition.
pub proof fn lemma_tick_dispatches_complete(
    cfg: Config,
    sel: Seq<usize>,
    polled: Seq<Polled>,
    n: int,
    e: int,
    j: int,
    m: int,
)
    requires
        0 <= e < n <= polled.len(),
        is_event(polled[e]),
        polled[e].path is Some,
        0 <= j < sel.len(),
        0 <= m < cfg.actions@[sel[j] as int].1.targets@.len(),
        target_fires(
            cfg.actions@[sel[j] as int].1.targets@[m],
            polled[e].path->0@,
            polled[e].transition,
        ),
    ensures
        tick_dispatches(cfg, sel, polled, n).contains(
            (sel[j], polled[e].path->0@, polled[e].transition),
        ),
    decreases n,
{
    let d = (sel[j], polled[e].path->0@, polled[e].transition);
    let prev = tick_dispatches(cfg, sel, polled, n - 1);
    let all = tick_dispatches(cfg, sel, polled, n);
    if e < n - 1 {
        lemma_tick_dispatches_complete(cfg, sel, polled, n - 1, e, j, m);
        let k = choose|k: int| 0 <= k < prev.len() && prev[k] == d;
        assert(all[k] == d);
    } else {
        let here = polled_dispatches(cfg, sel, polled[e]);
        lemma_event_dispatches_complete(
            cfg,
            sel,
            polled[e].path->0@,
            polled[e].transition,
            sel.len() as int,
            j,
            m,
        );
        let k = choose|k: int| 0 <= k < here.len() && here[k] == d;
        assert(all[prev.len() + k] == here[k]);
    }
}

impl Dispatch {
    /// The variables that the commands of this run find in their
    /// environment: the path that changed and the name of the change.
    pub fn env(&self) -> (res: Vec<(String, String)>)
        ensures
            res@.len() == 2,
            res@[0].0@ == "FW_PATH"@,
            res@[0].1@ == self.path@,
            res@[1].0@ == "FW_TRANSITION"@,
            res@[1].1@ == self.transition.name(),
    {
        let mut vars: Vec<(String, String)> = Vec::new();
        vars.push(("FW_PATH".to_owned(), self.path.clone()));
        vars.push(("FW_TRANSITION".to_owned(), transtion_to_string(&self.transition).to_owned()));
        vars
    }
}

} // verus!

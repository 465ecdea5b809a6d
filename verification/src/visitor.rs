//! What each node of the task graph does while the graph is visited.
//!
//! Every node waits for the tasks it waits for, hands itself to the runner, waits for the
//! result, tells its dependents, and stays around so that it can be restarted. The decisions
//! are a state machine, [`NodeVisitor`]; the channels that carry its events and actions are
//! driven by the caller, which performs each action in turn and hands back what happened.
use crate::graph::{NodeResult, VisitorCommand};
use vstd::prelude::*;

verus! {

/// Where a node stands.
#[derive(Debug, Clone, Copy, PartialEq, Eq, Structural)]
pub enum VisitorStage {
    /// Waiting for the tasks it waits for, and for commands
    WaitingDeps,
    /// Handing itself to the runner. Commands are held until the runner took it.
    Sending { deps_ok: bool },
    /// Waiting for the runner's result, and for commands
    Receiving { deps_ok: bool },
    /// Done, waiting for commands only
    Finished,
    /// Stopped for good
    Stopped,
}

/// What happened to a node.
#[derive(Debug)]
pub enum VisitorEvent {
    /// A command was broadcast to the visitors
    Command(VisitorCommand),
    /// The command channel lost some commands
    CommandsLagged,
    /// The command channel was closed
    CommandsClosed,
    /// Every task the node waits for has finished; whether all its dependencies succeeded
    DepsDone(bool),
    /// A task the node waits for can no longer tell its result
    DepsClosed,
    /// The runner took the node
    Sent,
    /// The runner is gone
    SendFailed,
    /// The runner reported the result of the node
    Callback(NodeResult),
    /// The runner dropped the node without a result
    CallbackDropped,
}

/// What a node asks to be done, in order.
#[derive(Debug, Clone, Copy, PartialEq, Eq, Structural)]
pub enum VisitorAction {
    /// Tell the dependents the result of this node
    Publish(NodeResult),
    /// Hand the node to the runner, with how often it ran and restarted, and whether its
    /// dependencies succeeded
    Send { num_runs: u64, num_restart: u64, deps_ok: bool },
    /// The node is done: strike it off the awaited tasks
    Done,
    /// The visitor of this node ends
    Exit,
}

/// The state of the visitor of one node.
#[derive(Debug)]
pub struct NodeVisitor {
    /// Name of the task of the node
    pub name: String,
    /// Whether the task is a service, which goes on running after it becomes ready
    pub is_service: bool,
    /// How many times the node was re-run by a restart
    pub num_runs: u64,
    /// How many times the runner asked to restart the task
    pub num_restart: u64,
    /// Whether the node runs without waiting for its dependencies, after a forced restart
    pub ignore_deps: bool,
    /// Where the node stands
    pub stage: VisitorStage,
}

/// The state of a visitor.
pub struct VisitorState {
    pub name: Seq<char>,
    pub is_service: bool,
    pub num_runs: u64,
    pub num_restart: u64,
    pub ignore_deps: bool,
    pub stage: VisitorStage,
}

impl View for NodeVisitor {
    type V = VisitorState;

    open spec fn view(&self) -> VisitorState {
        VisitorState {
            name: self.name@,
            is_service: self.is_service,
            num_runs: self.num_runs,
            num_restart: self.num_restart,
            ignore_deps: self.ignore_deps,
            stage: self.stage,
        }
    }
}

/// Where a node goes when it starts over: straight to the runner when it ignores its
/// dependencies, or else to waiting for them.
pub open spec fn start_stage(ignore_deps: bool) -> VisitorStage {
    if ignore_deps {
        VisitorStage::Sending { deps_ok: true }
    } else {
        VisitorStage::WaitingDeps
    }
}

/// What a node asks for when it starts over in the state `s`.
pub open spec fn start_actions(s: VisitorState) -> Seq<VisitorAction> {
    if s.ignore_deps {
        seq![VisitorAction::Send { num_runs: s.num_runs, num_restart: s.num_restart, deps_ok: true }]
    } else {
        Seq::empty()
    }
}

/// The state after a restart of the node, forced or not.
pub open spec fn restarted(s: VisitorState, force: bool) -> VisitorState {
    VisitorState { num_runs: (s.num_runs + 1) as u64, ignore_deps: force, stage: start_stage(force), ..s }
}

/// Whether the node handles commands where it stands. A node that is handing itself to the
/// runner takes them afterwards, and a stopped node takes none.
pub open spec fn takes_commands(stage: VisitorStage) -> bool {
    !(stage is Sending || stage is Stopped)
}

/// What a node in the state `s` does on the event `e`: its next state and the actions to take.
///
/// - `Stop` ends the visitor; a restart of the node's task tells the dependents to wait again and starts
///   the node over, without waiting for the dependencies when forced.
/// - When its dependencies are done, the node hands itself to the runner, which reports back.
/// - A result is passed on to the dependents; a service that succeeded stays to be restarted, any
///   other result finishes the node. No result asks for the task to be restarted.
/// - A node that cannot reach the runner, or whose result is dropped, fails.
/// - A finished node ends when the command channel closes.
pub open spec fn visitor_next(s: VisitorState, e: VisitorEvent) -> (VisitorState, Seq<VisitorAction>) {
    if s.stage is Stopped {
        (s, Seq::empty())
    } else {
        match e {
            VisitorEvent::Command(VisitorCommand::Stop) => if takes_commands(s.stage) {
                (VisitorState { stage: VisitorStage::Stopped, ..s }, seq![VisitorAction::Exit])
            } else {
                (s, Seq::empty())
            },
            VisitorEvent::Command(VisitorCommand::Restart { task, force }) => if takes_commands(s.stage)
                && task@ == s.name {
                let n = restarted(s, force);
                (n, seq![VisitorAction::Publish(NodeResult::Pending)] + start_actions(n))
            } else {
                (s, Seq::empty())
            },
            VisitorEvent::CommandsClosed => if s.stage is Finished {
                (VisitorState { stage: VisitorStage::Stopped, ..s }, seq![VisitorAction::Exit])
            } else {
                (s, Seq::empty())
            },
            VisitorEvent::DepsDone(ok) => if s.stage is WaitingDeps {
                (
                    VisitorState { stage: VisitorStage::Sending { deps_ok: ok }, ..s },
                    seq![VisitorAction::Send { num_runs: s.num_runs, num_restart: s.num_restart, deps_ok: ok }],
                )
            } else {
                (s, Seq::empty())
            },
            VisitorEvent::Sent => match s.stage {
                VisitorStage::Sending { deps_ok } => (
                    VisitorState { stage: VisitorStage::Receiving { deps_ok }, ..s },
                    Seq::empty(),
                ),
                _ => (s, Seq::empty()),
            },
            VisitorEvent::SendFailed => if s.stage is Sending {
                (
                    VisitorState { stage: VisitorStage::Finished, ..s },
                    seq![VisitorAction::Publish(NodeResult::Failure), VisitorAction::Done],
                )
            } else {
                (s, Seq::empty())
            },
            VisitorEvent::Callback(r) => match s.stage {
                VisitorStage::Receiving { deps_ok } => match r {
                    NodeResult::Pending => {
                        let n = VisitorState {
                            num_restart: (s.num_restart + 1) as u64,
                            stage: VisitorStage::Sending { deps_ok },
                            ..s
                        };
                        (
                            n,
                            seq![VisitorAction::Send { num_runs: n.num_runs, num_restart: n.num_restart, deps_ok }],
                        )
                    },
                    _ => if r is Success && s.is_service {
                        (s, seq![VisitorAction::Publish(r)])
                    } else {
                        (
                            VisitorState { stage: VisitorStage::Finished, ..s },
                            seq![VisitorAction::Publish(r), VisitorAction::Done],
                        )
                    },
                },
                _ => (s, Seq::empty()),
            },
            VisitorEvent::CallbackDropped => if s.stage is Receiving {
                (
                    VisitorState { stage: VisitorStage::Finished, ..s },
                    seq![VisitorAction::Publish(NodeResult::Failure), VisitorAction::Done],
                )
            } else {
                (s, Seq::empty())
            },
            _ => (s, Seq::empty()),
        }
    }
}

impl NodeVisitor {
    /// The visitor of the node of a task, waiting for the tasks it waits for.
    pub fn new(name: String, is_service: bool) -> (r: NodeVisitor)
        ensures
            r@ == (VisitorState {
                name: name@,
                is_service,
                num_runs: 0,
                num_restart: 0,
                ignore_deps: false,
                stage: VisitorStage::WaitingDeps,
            }),
    {
        NodeVisitor { name, is_service, num_runs: 0, num_restart: 0, ignore_deps: false, stage: VisitorStage::WaitingDeps }
    }

    /// Whether the node handles commands where it stands; see [`takes_commands`].
    pub fn takes_commands(&self) -> (r: bool)
        ensures
            r == takes_commands(self.stage),
    {
        match self.stage {
            VisitorStage::Sending { .. } | VisitorStage::Stopped => false,
            _ => true,
        }
    }

    /// Starts the node over after a restart; see [`restarted`].
    fn restart(&mut self, force: bool) -> (actions: Vec<VisitorAction>)
        requires
            old(self).num_runs < u64::MAX,
        ensures
            final(self)@ == restarted(old(self)@, force),
            actions@ == seq![VisitorAction::Publish(NodeResult::Pending)] + start_actions(final(self)@),
    {
        self.num_runs = self.num_runs + 1;
        self.ignore_deps = force;
        let mut actions: Vec<VisitorAction> = Vec::new();
        actions.push(VisitorAction::Publish(NodeResult::Pending));
        if force {
            self.stage = VisitorStage::Sending { deps_ok: true };
            actions.push(VisitorAction::Send { num_runs: self.num_runs, num_restart: self.num_restart, deps_ok: true });
        } else {
            self.stage = VisitorStage::WaitingDeps;
        }
        assert(actions@ =~= seq![VisitorAction::Publish(NodeResult::Pending)] + start_actions(self@));
        actions
    }

    /// Takes the event `event`: moves to the next state and returns the actions to take, in
    /// order; see [`visitor_next`].
    pub fn step(&mut self, event: VisitorEvent) -> (actions: Vec<VisitorAction>)
        requires
            old(self).num_runs < u64::MAX,
            old(self).num_restart < u64::MAX,
        ensures
            (final(self)@, actions@) == visitor_next(old(self)@, event),
    {
        let ghost s = self@;
        if self.stage == VisitorStage::Stopped {
            return Vec::new();
        }
        let mut actions: Vec<VisitorAction> = Vec::new();
        match event {
            VisitorEvent::Command(VisitorCommand::Stop) => {
                if self.takes_commands() {
                    self.stage = VisitorStage::Stopped;
                    actions.push(VisitorAction::Exit);
                }
            },
            VisitorEvent::Command(VisitorCommand::Restart { task, force }) => {
                if self.takes_commands() && task == self.name {
                    return self.restart(force);
                }
            },
            VisitorEvent::CommandsClosed => {
                if self.stage == VisitorStage::Finished {
                    self.stage = VisitorStage::Stopped;
                    actions.push(VisitorAction::Exit);
                }
            },
            VisitorEvent::DepsDone(ok) => {
                if self.stage == VisitorStage::WaitingDeps {
                    self.stage = VisitorStage::Sending { deps_ok: ok };
                    actions.push(VisitorAction::Send { num_runs: self.num_runs, num_restart: self.num_restart, deps_ok: ok });
                }
            },
            VisitorEvent::Sent => {
                match self.stage {
                    VisitorStage::Sending { deps_ok } => {
                        self.stage = VisitorStage::Receiving { deps_ok };
                    },
                    _ => {},
                }
            },
            VisitorEvent::SendFailed => {
                match self.stage {
                    VisitorStage::Sending { .. } => {
                        self.stage = VisitorStage::Finished;
                        actions.push(VisitorAction::Publish(NodeResult::Failure));
                        actions.push(VisitorAction::Done);
                    },
                    _ => {},
                }
            },
            VisitorEvent::Callback(r) => {
                match self.stage {
                    VisitorStage::Receiving { deps_ok } => {
                        match r {
                            NodeResult::Pending => {
                                self.num_restart = self.num_restart + 1;
                                self.stage = VisitorStage::Sending { deps_ok };
                                actions.push(VisitorAction::Send { num_runs: self.num_runs, num_restart: self.num_restart, deps_ok });
                            },
                            _ => {
                                actions.push(VisitorAction::Publish(r));
                                if !(r.success() && self.is_service) {
                                    self.stage = VisitorStage::Finished;
                                    actions.push(VisitorAction::Done);
                                }
                            },
                        }
                    },
                    _ => {},
                }
            },
            VisitorEvent::CallbackDropped => {
                match self.stage {
                    VisitorStage::Receiving { .. } => {
                        self.stage = VisitorStage::Finished;
                        actions.push(VisitorAction::Publish(NodeResult::Failure));
                        actions.push(VisitorAction::Done);
                    },
                    _ => {},
                }
            },
            _ => {},
        }
        proof {
            let (n, a) = visitor_next(s, event);
            assert(actions@ =~= a);
        }
        actions
    }
}

/// Whether the `i`-th dependency failed, all those before it having succeeded.
pub open spec fn first_failure(deps: Seq<NodeResult>, i: int) -> bool {
    &&& 0 <= i < deps.len()
    &&& deps[i] is Failure
    &&& forall|j: int| 0 <= j < i ==> deps[j] is Success
}

/// Whether the node may run: `Some(true)` when every dependency succeeded and every ordering
/// task has finished, `Some(false)` as soon as a dependency failed, the dependencies before it
/// having succeeded, and `None` while it still has to wait.
pub open spec fn spec_deps_status(deps: Seq<NodeResult>, orders: Seq<NodeResult>) -> Option<bool> {
    if exists|i: int| #[trigger] first_failure(deps, i) {
        Some(false)
    } else if (forall|i: int| 0 <= i < deps.len() ==> deps[i] is Success) && (forall|i: int|
        0 <= i < orders.len() ==> !(orders[i] is Pending)) {
        Some(true)
    } else {
        None
    }
}

/// A dependency without a result, after dependencies that succeeded, keeps the node waiting.
proof fn lemma_pending_dep(deps: Seq<NodeResult>, orders: Seq<NodeResult>, i: int)
    requires
        0 <= i < deps.len(),
        deps[i] is Pending,
        forall|j: int| 0 <= j < i ==> deps[j] is Success,
    ensures
        spec_deps_status(deps, orders) is None,
{
    assert forall|k: int| !#[trigger] first_failure(deps, k) by {
        if 0 <= k < deps.len() && deps[k] is Failure {
            if k < i {
                assert(deps[k] is Success);
            } else {
                assert(k > i);
                assert(!(deps[i] is Success));
            }
        }
    }
    assert(!(deps[i] is Success));
}

/// Decides, from the results seen so far of the dependencies and of the ordering tasks of a
/// node, whether the node may run. The tasks are awaited one after the other, dependencies
/// first: a failed dependency makes the node skip its run, so nothing after it is awaited, and
/// the result of an ordering task is ignored once it is known.
pub fn deps_status(deps: &Vec<NodeResult>, orders: &Vec<NodeResult>) -> (r: Option<bool>)
    ensures
        r == spec_deps_status(deps@, orders@),
{
    let mut i: usize = 0;
    while i < deps.len()
        invariant
            i <= deps.len(),
            forall|j: int| 0 <= j < i ==> deps@[j] is Success,
        decreases deps.len() - i,
    {
        match deps[i] {
            NodeResult::Pending => {
                proof {
                    lemma_pending_dep(deps@, orders@, i as int);
                }
                return None;
            },
            NodeResult::Failure => {
                assert(first_failure(deps@, i as int));
                return Some(false);
            },
            NodeResult::Success => {},
        }
        i = i + 1;
    }
    let mut k: usize = 0;
    while k < orders.len()
        invariant
            k <= orders.len(),
            forall|j: int| 0 <= j < deps@.len() ==> deps@[j] is Success,
            forall|j: int| 0 <= j < k ==> !(orders@[j] is Pending),
        decreases orders.len() - k,
    {
        if !orders[k].present() {
            return None;
        }
        k = k + 1;
    }
    Some(true)
}

/// Strikes a finished node off the awaited tasks, and tells whether the visit should stop now:
/// under `quit_on_done`, once no awaited task is left.
pub fn mark_target_done(remaining: &mut Vec<String>, name: &String, quit_on_done: bool) -> (stop: bool)
    ensures
        final(remaining)@.map_values(|s: String| s@) == old(remaining)@.map_values(|s: String| s@).filter(
            |s: Seq<char>| s != name@,
        ),
        stop == (quit_on_done && final(remaining)@.len() == 0),
{
    let ghost orig = old(remaining)@.map_values(|s: String| s@);
    let ghost pred = |s: Seq<char>| s != name@;
    let mut kept: Vec<String> = Vec::new();
    let mut i: usize = 0;
    while i < remaining.len()
        invariant
            i <= remaining.len(),
            orig == remaining@.map_values(|s: String| s@),
            pred == (|s: Seq<char>| s != name@),
            kept@.map_values(|s: String| s@) == orig.take(i as int).filter(pred),
        decreases remaining.len() - i,
    {
        proof {
            reveal(Seq::filter);
            assert(orig.take(i + 1).drop_last() =~= orig.take(i as int));
        }
        if remaining[i] != *name {
            kept.push(remaining[i].clone());
            proof {
                assert(kept@.map_values(|s: String| s@) =~= kept@.drop_last().map_values(|s: String| s@).push(
                    orig[i as int],
                ));
            }
        }
        i = i + 1;
    }
    proof {
        assert(orig.take(orig.len() as int) =~= orig);
    }
    *remaining = kept;
    quit_on_done && remaining.len() == 0
}

/// Strikes a finished node off the awaited tasks and off the finalizers still to run, and
/// tells whether the visit should stop now: under `quit_on_done` once no awaited task is left,
/// or, while quitting, once no finalizer is left.
pub fn node_done(
    awaited: &mut Vec<String>,
    finalizers: &mut Vec<String>,
    name: &String,
    quit_on_done: bool,
    quitting: bool,
) -> (stop: bool)
    ensures
        final(awaited)@.map_values(|s: String| s@) == old(awaited)@.map_values(|s: String| s@).filter(
            |s: Seq<char>| s != name@,
        ),
        final(finalizers)@.map_values(|s: String| s@) == old(finalizers)@.map_values(|s: String| s@).filter(
            |s: Seq<char>| s != name@,
        ),
        stop == ((quit_on_done && final(awaited)@.len() == 0) || (quitting && final(finalizers)@.len() == 0)),
{
    let awaited_done = mark_target_done(awaited, name, quit_on_done);
    let finalizers_done = mark_target_done(finalizers, name, quitting);
    awaited_done || finalizers_done
}

/// A stop ends the visitor of every node that takes commands.
pub proof fn law_stop_ends_visit(s: VisitorState)
    requires
        takes_commands(s.stage),
    ensures
        visitor_next(s, VisitorEvent::Command(VisitorCommand::Stop)).0.stage == VisitorStage::Stopped,
        visitor_next(s, VisitorEvent::Command(VisitorCommand::Stop)).1 == seq![VisitorAction::Exit],
{
}

/// A stopped visitor does nothing more, whatever happens.
pub proof fn law_stopped_is_final(s: VisitorState, e: VisitorEvent)
    requires
        s.stage is Stopped,
    ensures
        visitor_next(s, e) == (s, Seq::<VisitorAction>::empty()),
{
}

/// The run and restart counts of a node never go down, and the node keeps its task.
pub proof fn law_counts_grow(s: VisitorState, e: VisitorEvent)
    requires
        s.num_runs < u64::MAX,
        s.num_restart < u64::MAX,
    ensures
        visitor_next(s, e).0.num_runs >= s.num_runs,
        visitor_next(s, e).0.num_restart >= s.num_restart,
        visitor_next(s, e).0.name == s.name,
        visitor_next(s, e).0.is_service == s.is_service,
{
}

/// Restarting the task of a node first tells its dependents to wait again, counts a run, and
/// starts the node over; a forced restart hands the node to the runner at once, as if its
/// dependencies had succeeded.
pub proof fn law_restart_resets_dependents(s: VisitorState, task: String, force: bool)
    requires
        takes_commands(s.stage),
        task@ == s.name,
        s.num_runs < u64::MAX,
    ensures
        ({
            let (n, a) = visitor_next(s, VisitorEvent::Command(VisitorCommand::Restart { task, force }));
            &&& a[0] == VisitorAction::Publish(NodeResult::Pending)
            &&& n.num_runs == s.num_runs + 1
            &&& force ==> n.stage == (VisitorStage::Sending { deps_ok: true }) && a.len() == 2 && a[1]
                == (VisitorAction::Send { num_runs: n.num_runs, num_restart: n.num_restart, deps_ok: true })
            &&& !force ==> n.stage == VisitorStage::WaitingDeps && a.len() == 1
        }),
{
}

/// A result from the runner is passed on to the dependents first. A service that succeeded goes
/// on waiting, so that it can be restarted; any other result finishes the node.
pub proof fn law_result_published(s: VisitorState, r: NodeResult)
    requires
        s.stage is Receiving,
        !(r is Pending),
    ensures
        ({
            let (n, a) = visitor_next(s, VisitorEvent::Callback(r));
            &&& a[0] == VisitorAction::Publish(r)
            &&& (r is Success && s.is_service) ==> n.stage == s.stage && a.len() == 1
            &&& !(r is Success && s.is_service) ==> n.stage is Finished && a == seq![
                VisitorAction::Publish(r),
                VisitorAction::Done,
            ]
        }),
{
}

/// A node is handed to the runner only once its dependencies are done, with whether they
/// succeeded.
pub proof fn law_deps_gate(s: VisitorState, ok: bool)
    requires
        s.stage is WaitingDeps,
    ensures
        visitor_next(s, VisitorEvent::DepsDone(ok)).1 == seq![
            VisitorAction::Send { num_runs: s.num_runs, num_restart: s.num_restart, deps_ok: ok },
        ],
        visitor_next(s, VisitorEvent::Sent).1.len() == 0,
        visitor_next(s, VisitorEvent::Callback(NodeResult::Success)).1.len() == 0,
{
}

/// A node waits while any of its dependencies or ordering tasks has no result yet, unless a
/// dependency before it failed; it runs only when all its dependencies succeeded.
pub proof fn law_runs_only_after_deps(deps: Seq<NodeResult>, orders: Seq<NodeResult>)
    ensures
        spec_deps_status(deps, orders) == Some(true) ==> forall|i: int| 0 <= i < deps.len() ==> deps[i] is Success,
        spec_deps_status(deps, orders) == Some(true) ==> forall|i: int| 0 <= i < orders.len() ==> !(orders[i] is Pending),
        spec_deps_status(deps, orders) == Some(false) ==> exists|i: int| 0 <= i < deps.len() && deps[i] is Failure,
{
    if spec_deps_status(deps, orders) == Some(false) {
        let i = choose|i: int| #[trigger] first_failure(deps, i);
        assert(deps[i] is Failure);
    }
}

/// The results of the ordering tasks never make a node's dependencies fail: whether they
/// failed depends on the dependencies alone, whatever the ordering tasks gave.
pub proof fn law_orders_never_fail(deps: Seq<NodeResult>, orders: Seq<NodeResult>, others: Seq<NodeResult>)
    ensures
        (spec_deps_status(deps, orders) == Some(false)) == (spec_deps_status(deps, others) == Some(false)),
{
}

} // verus!

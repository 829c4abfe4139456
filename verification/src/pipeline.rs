//! Pipelines and the executor that runs them, one action after another.

use crate::context::{TypedContext, ValueView};
use crate::node::{built_for, get_node, is_first, Node, NodeFailure, NodeRegistry};
use vstd::prelude::*;
use vstd::string::StringExecFns;

verus! {

/// One step of a pipeline: the node to run, the context slots it is given,
/// and a name for diagnostics.
#[derive(Debug, Clone)]
pub struct BaseAction {
    pub class_name: String,
    pub input_id: Option<String>,
    pub output_id: Option<String>,
    pub name: String,
}

/// What a [`BaseAction`] is, mathematically.
pub struct ActionView {
    pub class_name: Seq<char>,
    pub input_id: Option<Seq<char>>,
    pub output_id: Option<Seq<char>>,
    pub name: Seq<char>,
}

/// The text of an optional string.
pub open spec fn text_view(s: Option<String>) -> Option<Seq<char>> {
    match s {
        Some(t) => Some(t@),
        None => None,
    }
}

/// The key that an optional slot stands for: a missing one is the empty key.
pub open spec fn key_or_empty(id: Option<Seq<char>>) -> Seq<char> {
    match id {
        Some(k) => k,
        None => Seq::<char>::empty(),
    }
}

impl View for BaseAction {
    type V = ActionView;

    open spec fn view(&self) -> ActionView {
        ActionView {
            class_name: self.class_name@,
            input_id: text_view(self.input_id),
            output_id: text_view(self.output_id),
            name: self.name@,
        }
    }
}

/// An ordered list of actions.
#[derive(Debug)]
pub struct Pipeline {
    pub actions: Vec<BaseAction>,
}

impl View for Pipeline {
    type V = Seq<ActionView>;

    open spec fn view(&self) -> Seq<ActionView> {
        self.actions@.map_values(|a: BaseAction| a@)
    }
}

/// The message that the step observer gets for a completed action.
pub open spec fn step_text(name: Seq<char>) -> Seq<char> {
    "action "@ + name + " executed"@
}

/// The message of the failure raised for an identifier without registration.
pub open spec fn not_found_text(class_name: Seq<char>) -> Seq<char> {
    "node "@ + class_name + " not found"@
}

/// The message reported for a failure.
pub open spec fn failure_text(failure: NodeFailure) -> Seq<char> {
    match failure {
        NodeFailure::Text(s) => s@,
        NodeFailure::Opaque => "Unknown error"@,
    }
}

/// Builds the message for a completed action.
pub fn step_message(name: &str) -> (r: String)
    ensures
        r@ == step_text(name@),
{
    let mut r = String::from_str("action ");
    r.append(name);
    r.append(" executed");
    r
}

/// Builds the message for an identifier without registration.
pub fn not_found_message(class_name: &str) -> (r: String)
    ensures
        r@ == not_found_text(class_name@),
{
    let mut r = String::from_str("node ");
    r.append(class_name);
    r.append(" not found");
    r
}

/// Extracts the message of a failure: its own text, or a generic one where it
/// carries none.
pub fn failure_message(failure: NodeFailure) -> (r: String)
    ensures
        r@ == failure_text(failure),
{
    match failure {
        NodeFailure::Text(s) => s,
        NodeFailure::Opaque => String::from_str("Unknown error"),
    }
}

fn key_of(id: &Option<String>) -> (r: String)
    ensures
        r@ == key_or_empty(text_view(*id)),
{
    match id {
        Some(k) => k.clone(),
        None => String::new(),
    }
}

impl BaseAction {
    /// The action as shown in diagnostics: its name.
    pub fn to_string(&self) -> (r: String)
        ensures
            r@ == self@.name,
    {
        self.name.clone()
    }
}

/// What the context holds, mathematically.
pub type ContextView = Map<Seq<char>, ValueView>;

/// What running `action` may do: whether, started on the context `before`,
/// it may leave the context `after` and end with `outcome`.
///
/// Where the action's identifier has a registration, this is what a node from
/// that registration's constructor may do with the action's keys. Where it
/// has none, the context stays as it is and the outcome is the failure that
/// names the identifier.
pub open spec fn step_effect<N, F>(
    names: Seq<Seq<char>>,
    constructors: Seq<F>,
    action: ActionView,
    before: ContextView,
    after: ContextView,
    outcome: Result<(), NodeFailure>,
) -> bool where N: Node, F: Fn() -> N {
    if names.contains(action.class_name) {
        exists|node: N| #[trigger]
            built_for(names, constructors, action.class_name, node) && node.effect(
                before,
                key_or_empty(action.input_id),
                key_or_empty(action.output_id),
                after,
                outcome,
            )
    } else {
        &&& after == before
        &&& outcome matches Err(NodeFailure::Text(m))
        &&& m@ == not_found_text(action.class_name)
    }
}

/// Runs one action: resolves its node and executes it against the context.
///
/// An identifier without registration is a failure whose text names it, and
/// leaves the context as it was. Otherwise a fresh node is built and run with
/// the action's keys, a missing key as the empty one, and the outcome is the
/// node's own.
pub fn node_execute<N, F>(
    action: &BaseAction,
    registry: &NodeRegistry<N, F>,
    context: &mut TypedContext,
) -> (outcome: Result<(), NodeFailure>) where N: Node, F: Fn() -> N
    ensures
        step_effect::<N, F>(
            registry.names(),
            registry.constructors(),
            action@,
            old(context)@,
            final(context)@,
            outcome,
        ),
{
    match get_node(registry, action.class_name.as_str()) {
        Some(node) => {
            proof {
                let i = choose|i: int| #[trigger]
                    is_first(registry.names(), action@.class_name, i) && call_ensures(
                        registry.constructors()[i],
                        (),
                        node,
                    );
                assert(registry.names()[i] == action@.class_name);
            }
            node.execute(context, key_of(&action.input_id), key_of(&action.output_id))
        },
        None => Err(NodeFailure::Text(not_found_message(action.class_name.as_str()))),
    }
}

/// The texts of a list of strings.
pub open spec fn texts(strings: Seq<String>) -> Seq<Seq<char>> {
    strings.map_values(|s: String| s@)
}

/// What a run told its observers.
#[derive(Debug)]
pub struct RunReport {
    /// The messages given to the step observer, in the order given.
    pub steps: Vec<String>,
    /// The message given to the error observer, if an action failed.
    pub error: Option<String>,
}

/// What a [`RunReport`] is, mathematically.
pub struct ReportView {
    pub steps: Seq<Seq<char>>,
    pub error: Option<Seq<char>>,
}

impl View for RunReport {
    type V = ReportView;

    open spec fn view(&self) -> ReportView {
        ReportView { steps: texts(self.steps@), error: text_view(self.error) }
    }
}

/// How an action that is reached ends: `None` where its node completes,
/// `Some` with the failure's message where it fails.
pub type Outcome = Option<Seq<char>>;

/// The position of the first failure among `outcomes`, or their number where
/// there is none: the number of actions that complete.
pub open spec fn halt_index(outcomes: Seq<Outcome>) -> nat
    decreases outcomes.len(),
{
    if outcomes.len() == 0 || outcomes[0] is Some {
        0
    } else {
        1 + halt_index(outcomes.drop_first())
    }
}

/// The report of a run of `actions` in which the action at each position, if
/// the run reaches it, ends as `outcomes` says at that position.
///
/// Every action before the first failure is reported as a step, in order; the
/// first failure is reported as the error; nothing after it is reported.
pub open spec fn run_report(actions: Seq<ActionView>, outcomes: Seq<Outcome>) -> ReportView {
    let k = halt_index(outcomes);
    ReportView {
        steps: Seq::new(k, |i: int| step_text(actions[i].name)),
        error: if k < outcomes.len() {
            outcomes[k as int]
        } else {
            None
        },
    }
}

/// The outcome that a node's result stands for.
pub open spec fn outcome_of(result: Result<(), NodeFailure>) -> Outcome {
    match result {
        Ok(_) => None,
        Err(failure) => Some(failure_text(failure)),
    }
}

/// What one action of a run did: the context it left and how it ended.
pub struct StepRecord {
    pub after: ContextView,
    pub outcome: Result<(), NodeFailure>,
}

/// The context on which the action at position `i` of a run starts: the one
/// the run started on, or the one that the action before it left.
pub open spec fn context_before(start: ContextView, trace: Seq<StepRecord>, i: int) -> ContextView {
    if i <= 0 {
        start
    } else {
        trace[i - 1].after
    }
}

/// The context that a run leaves.
pub open spec fn context_after(start: ContextView, trace: Seq<StepRecord>) -> ContextView {
    context_before(start, trace, trace.len() as int)
}

/// How the actions of a run ended, in order.
pub open spec fn trace_outcomes(trace: Seq<StepRecord>) -> Seq<Outcome> {
    trace.map_values(|r: StepRecord| outcome_of(r.outcome))
}

/// Whether `trace` records a run of `actions` that started on `start`.
///
/// The records are those of the actions that ran, in order: each started on
/// the context that the one before it left and did what running it may do.
/// Only the last of them may have failed, and the run went through every
/// action unless the last one failed.
pub open spec fn run_fits<N, F>(
    names: Seq<Seq<char>>,
    constructors: Seq<F>,
    actions: Seq<ActionView>,
    start: ContextView,
    trace: Seq<StepRecord>,
) -> bool where N: Node, F: Fn() -> N {
    &&& trace.len() <= actions.len()
    &&& forall|i: int|
        0 <= i < trace.len() ==> step_effect::<N, F>(
            names,
            constructors,
            actions[i],
            context_before(start, trace, i),
            (#[trigger] trace[i]).after,
            trace[i].outcome,
        )
    &&& forall|i: int| 0 <= i < trace.len() - 1 ==> (#[trigger] trace[i]).outcome is Ok
    &&& trace.len() < actions.len() ==> trace.len() > 0 && trace.last().outcome is Err
}

/// Whether `trace` records a run of `actions` that started on the context
/// `start`, left the context `end` and gave `report`.
#[verifier::opaque]
pub open spec fn run_of<N, F>(
    names: Seq<Seq<char>>,
    constructors: Seq<F>,
    actions: Seq<ActionView>,
    start: ContextView,
    trace: Seq<StepRecord>,
    end: ContextView,
    report: ReportView,
) -> bool where N: Node, F: Fn() -> N {
    &&& run_fits::<N, F>(names, constructors, actions, start, trace)
    &&& end == context_after(start, trace)
    &&& report == run_report(actions, trace_outcomes(trace))
}

/// Whether running `action` always completes (`completes` true) or always
/// fails (`completes` false), on whatever context it starts.
pub open spec fn step_always<N, F>(
    names: Seq<Seq<char>>,
    constructors: Seq<F>,
    action: ActionView,
    completes: bool,
) -> bool where N: Node, F: Fn() -> N {
    forall|before: ContextView, after: ContextView, outcome: Result<(), NodeFailure>| #[trigger]
        step_effect::<N, F>(names, constructors, action, before, after, outcome) ==> (outcome is Ok)
            == completes
}

/// `halt_index` is within bounds, nothing before it is a failure, and what
/// stands at it is one.
pub proof fn lemma_halt_index(outcomes: Seq<Outcome>)
    ensures
        halt_index(outcomes) <= outcomes.len(),
        forall|j: int| 0 <= j < halt_index(outcomes) ==> outcomes[j] is None,
        halt_index(outcomes) < outcomes.len() ==> outcomes[halt_index(outcomes) as int] is Some,
    decreases outcomes.len(),
{
    if outcomes.len() == 0 || outcomes[0] is Some {
    } else {
        let rest = outcomes.drop_first();
        lemma_halt_index(rest);
        assert forall|j: int| 0 <= j < halt_index(outcomes) implies outcomes[j] is None by {
            if j > 0 {
                assert(outcomes[j] == rest[j - 1]);
            }
        }
        assert(halt_index(rest) < rest.len() ==> outcomes[halt_index(outcomes) as int]
            == rest[halt_index(rest) as int]);
    }
}

/// The first position that holds a failure, with none before it, is
/// `halt_index`; so is the number of outcomes where none is a failure.
pub proof fn lemma_halt_at(outcomes: Seq<Outcome>, k: nat)
    requires
        k <= outcomes.len(),
        forall|j: int| 0 <= j < k ==> outcomes[j] is None,
        k < outcomes.len() ==> outcomes[k as int] is Some,
    ensures
        halt_index(outcomes) == k,
    decreases outcomes.len(),
{
    if k == 0 {
    } else {
        let rest = outcomes.drop_first();
        assert(outcomes[0] is None);
        assert forall|j: int| 0 <= j < k - 1 implies rest[j] is None by {
            assert(rest[j] == outcomes[j + 1]);
        }
        lemma_halt_at(rest, (k - 1) as nat);
    }
}

/// Where every action completes, each is reported as a step, in the order of
/// the pipeline, and no error is reported.
pub proof fn lemma_all_complete(actions: Seq<ActionView>, outcomes: Seq<Outcome>)
    requires
        outcomes.len() == actions.len(),
        forall|i: int| 0 <= i < outcomes.len() ==> outcomes[i] is None,
    ensures
        run_report(actions, outcomes).steps == actions.map_values(
            |a: ActionView| step_text(a.name),
        ),
        run_report(actions, outcomes).steps.len() == actions.len(),
        run_report(actions, outcomes).error is None,
{
    lemma_halt_at(outcomes, outcomes.len());
    assert(run_report(actions, outcomes).steps =~= actions.map_values(
        |a: ActionView| step_text(a.name),
    ));
}

/// Where the action at position `k` fails and all before it complete, exactly
/// the `k` actions before it are reported as steps, in order, and the error
/// reported is that failure, whatever the outcomes of later actions would be.
pub proof fn lemma_first_failure(actions: Seq<ActionView>, outcomes: Seq<Outcome>, k: int)
    requires
        outcomes.len() <= actions.len(),
        0 <= k < outcomes.len(),
        outcomes[k] is Some,
        forall|i: int| 0 <= i < k ==> outcomes[i] is None,
    ensures
        run_report(actions, outcomes).steps == actions.take(k).map_values(
            |a: ActionView| step_text(a.name),
        ),
        run_report(actions, outcomes).steps.len() == k,
        run_report(actions, outcomes).error == outcomes[k],
        forall|others: Seq<Outcome>|
            others.len() == outcomes.len() && others.take(k + 1) == outcomes.take(k + 1)
                ==> #[trigger] run_report(actions, others) == run_report(actions, outcomes),
{
    lemma_halt_at(outcomes, k as nat);
    assert(run_report(actions, outcomes).steps =~= actions.take(k).map_values(
        |a: ActionView| step_text(a.name),
    ));
    assert forall|others: Seq<Outcome>|
        others.len() == outcomes.len() && others.take(k + 1) == outcomes.take(
            k + 1,
        ) implies #[trigger] run_report(actions, others) == run_report(actions, outcomes) by {
        assert forall|j: int| 0 <= j <= k implies others[j] == outcomes[j] by {
            assert(others[j] == others.take(k + 1)[j]);
            assert(outcomes[j] == outcomes.take(k + 1)[j]);
        }
        lemma_halt_at(others, k as nat);
        assert(run_report(actions, others).steps =~= run_report(actions, outcomes).steps);
    }
}

/// The shape of every report. The steps are those of a leading part of the
/// pipeline, in order. There is no error exactly where every action is
/// reported as a step. Where the action after the last step has an identifier
/// without registration, the error names that identifier. A run of no
/// action, or one whose first identifier has no registration, leaves the
/// context as it was.
pub proof fn lemma_report_shape<N, F>(
    names: Seq<Seq<char>>,
    constructors: Seq<F>,
    actions: Seq<ActionView>,
    start: ContextView,
    trace: Seq<StepRecord>,
    end: ContextView,
    report: ReportView,
) where N: Node, F: Fn() -> N
    requires
        run_of::<N, F>(names, constructors, actions, start, trace, end, report),
    ensures
        ({
            let k = report.steps.len() as int;
            &&& k <= actions.len()
            &&& report.steps == actions.take(k).map_values(|a: ActionView| step_text(a.name))
            &&& report.error is None <==> k == actions.len()
            &&& k < actions.len() && !names.contains(actions[k].class_name) ==> report.error
                == Some(not_found_text(actions[k].class_name))
            &&& actions.len() == 0 || !names.contains(actions[0].class_name) ==> end == start
        }),
{
    reveal(run_of);
    let outcomes = trace_outcomes(trace);
    lemma_halt_index(outcomes);
    if trace.len() > 0 && !names.contains(actions[0].class_name) {
        assert(step_effect::<N, F>(
            names,
            constructors,
            actions[0],
            context_before(start, trace, 0),
            trace[0].after,
            trace[0].outcome,
        ));
        assert(trace[0].outcome is Err);
        assert(trace.len() == 1);
    }
    let k = report.steps.len() as int;
    assert(report.steps =~= actions.take(k).map_values(|a: ActionView| step_text(a.name)));
    if k == trace.len() {
        if k > 0 {
            assert(outcomes[k - 1] is None);
            assert(trace[k - 1].outcome is Ok);
        }
    } else {
        assert(outcomes[k] is Some);
        assert(trace[k].outcome is Err);
        assert(step_effect::<N, F>(
            names,
            constructors,
            actions[k],
            context_before(start, trace, k),
            trace[k].after,
            trace[k].outcome,
        ));
    }
}

/// Where running each action always completes, the run goes through every
/// action, each is reported as a step, in the order of the pipeline, and no
/// error is reported.
pub proof fn lemma_run_completes<N, F>(
    names: Seq<Seq<char>>,
    constructors: Seq<F>,
    actions: Seq<ActionView>,
    start: ContextView,
    trace: Seq<StepRecord>,
    end: ContextView,
    report: ReportView,
) where N: Node, F: Fn() -> N
    requires
        run_of::<N, F>(names, constructors, actions, start, trace, end, report),
        forall|i: int|
            0 <= i < actions.len() ==> step_always::<N, F>(
                names,
                constructors,
                #[trigger] actions[i],
                true,
            ),
    ensures
        trace.len() == actions.len(),
        report.steps == actions.map_values(|a: ActionView| step_text(a.name)),
        report.steps.len() == actions.len(),
        report.error is None,
{
    reveal(run_of);
    assert forall|i: int| 0 <= i < trace.len() implies (#[trigger] trace[i]).outcome is Ok by {
        assert(step_always::<N, F>(names, constructors, actions[i], true));
        assert(step_effect::<N, F>(
            names,
            constructors,
            actions[i],
            context_before(start, trace, i),
            trace[i].after,
            trace[i].outcome,
        ));
    }
    if trace.len() < actions.len() {
        assert(trace[trace.len() - 1].outcome is Ok);
    }
    lemma_all_complete(actions, trace_outcomes(trace));
}

/// Where running each of the first `k` actions always completes and running
/// the one at position `k` always fails, the run ends with that action:
/// exactly the `k` actions before it are reported as steps, in order, the
/// error reported is its failure, no later action runs, and the context is
/// left as that action left it.
pub proof fn lemma_run_fails_at<N, F>(
    names: Seq<Seq<char>>,
    constructors: Seq<F>,
    actions: Seq<ActionView>,
    start: ContextView,
    trace: Seq<StepRecord>,
    end: ContextView,
    report: ReportView,
    k: int,
) where N: Node, F: Fn() -> N
    requires
        run_of::<N, F>(names, constructors, actions, start, trace, end, report),
        0 <= k < actions.len(),
        forall|i: int|
            0 <= i < k ==> step_always::<N, F>(names, constructors, #[trigger] actions[i], true),
        step_always::<N, F>(names, constructors, actions[k], false),
    ensures
        trace.len() == k + 1,
        report.steps == actions.take(k).map_values(|a: ActionView| step_text(a.name)),
        report.steps.len() == k,
        trace[k].outcome is Err,
        report.error == outcome_of(trace[k].outcome),
        end == trace[k].after,
{
    reveal(run_of);
    assert forall|i: int| 0 <= i < trace.len() && i < k implies (#[trigger] trace[i]).outcome is Ok by {
        assert(step_always::<N, F>(names, constructors, actions[i], true));
        assert(step_effect::<N, F>(
            names,
            constructors,
            actions[i],
            context_before(start, trace, i),
            trace[i].after,
            trace[i].outcome,
        ));
    }
    if trace.len() <= k {
        assert(trace[trace.len() - 1].outcome is Ok);
    }
    assert(step_effect::<N, F>(
        names,
        constructors,
        actions[k],
        context_before(start, trace, k),
        trace[k].after,
        trace[k].outcome,
    ));
    assert(trace[k].outcome is Err);
    let outcomes = trace_outcomes(trace);
    assert forall|i: int| 0 <= i < k implies outcomes[i] is None by {
        assert(trace[i].outcome is Ok);
    }
    lemma_first_failure(actions, outcomes, k);
}

/// Settles one action that ended with `outcome`: a completed action adds its
/// step message to `steps` and the run goes on; a failed one leaves `steps` as
/// they are and gives the error message with which the run ends.
pub fn record_outcome(steps: &mut Vec<String>, name: &str, outcome: Result<(), NodeFailure>) -> (error:
    Option<String>)
    ensures
        outcome is Ok ==> error is None && texts(final(steps)@) == texts(old(steps)@).push(
            step_text(name@),
        ),
        outcome matches Err(failure) ==> text_view(error) == Some(failure_text(failure))
            && final(steps)@ == old(steps)@,
{
    match outcome {
        Ok(_) => {
            steps.push(step_message(name));
            assert(texts(steps@) =~= texts(old(steps)@).push(step_text(name@)));
            None
        },
        Err(failure) => Some(failure_message(failure)),
    }
}

/// Whether an observer, if there is one, accepts every message.
pub open spec fn observer_ready<O: Fn(&str)>(observer: Option<O>) -> bool {
    observer matches Some(f) ==> forall|m: &str| call_requires(f, (m,))
}

fn notify<O: Fn(&str)>(observer: &Option<O>, message: &str)
    requires
        observer_ready(*observer),
{
    if let Some(f) = observer {
        f(message);
    }
}

/// Whether `trace` records the start of a run of `actions` in which no
/// action has failed yet.
#[verifier::opaque]
spec fn run_goes_on<N, F>(
    names: Seq<Seq<char>>,
    constructors: Seq<F>,
    actions: Seq<ActionView>,
    start: ContextView,
    trace: Seq<StepRecord>,
) -> bool where N: Node, F: Fn() -> N {
    &&& trace.len() <= actions.len()
    &&& forall|i: int|
        0 <= i < trace.len() ==> step_effect::<N, F>(
            names,
            constructors,
            actions[i],
            context_before(start, trace, i),
            (#[trigger] trace[i]).after,
            trace[i].outcome,
        )
    &&& forall|i: int| 0 <= i < trace.len() ==> (#[trigger] trace[i]).outcome is Ok
}

/// One more action ran: where it completed, the run goes on with its record;
/// where it failed, the record closes the run.
proof fn lemma_run_grows<N, F>(
    names: Seq<Seq<char>>,
    constructors: Seq<F>,
    actions: Seq<ActionView>,
    start: ContextView,
    trace: Seq<StepRecord>,
    record: StepRecord,
) where N: Node, F: Fn() -> N
    requires
        run_goes_on::<N, F>(names, constructors, actions, start, trace),
        trace.len() < actions.len(),
        step_effect::<N, F>(
            names,
            constructors,
            actions[trace.len() as int],
            context_after(start, trace),
            record.after,
            record.outcome,
        ),
    ensures
        context_after(start, trace.push(record)) == record.after,
        record.outcome is Ok ==> run_goes_on::<N, F>(
            names,
            constructors,
            actions,
            start,
            trace.push(record),
        ),
        record.outcome is Err ==> run_of::<N, F>(
            names,
            constructors,
            actions,
            start,
            trace.push(record),
            record.after,
            (ReportView {
                steps: Seq::new(trace.len(), |j: int| step_text(actions[j].name)),
                error: outcome_of(record.outcome),
            }),
        ),
{
    reveal(run_goes_on);
    reveal(run_of);
    let grown = trace.push(record);
    assert forall|j: int| 0 <= j < grown.len() implies step_effect::<N, F>(
        names,
        constructors,
        actions[j],
        context_before(start, grown, j),
        (#[trigger] grown[j]).after,
        grown[j].outcome,
    ) by {
        if j < trace.len() {
            assert(grown[j] == trace[j]);
            assert(context_before(start, grown, j) == context_before(start, trace, j));
        }
    }
    assert forall|j: int| 0 <= j < grown.len() - 1 implies (#[trigger] grown[j]).outcome is Ok by {
        assert(grown[j] == trace[j]);
    }
    if record.outcome is Err {
        let outcomes = trace_outcomes(grown);
        assert forall|j: int| 0 <= j < trace.len() implies outcomes[j] is None by {
            assert(grown[j].outcome is Ok);
        }
        lemma_halt_at(outcomes, trace.len());
        assert(run_report(actions, outcomes).steps =~= Seq::new(
            trace.len(),
            |j: int| step_text(actions[j].name),
        ));
    }
}

/// A run in which every action completed is a whole run, and reports every
/// action as a step.
proof fn lemma_run_ends<N, F>(
    names: Seq<Seq<char>>,
    constructors: Seq<F>,
    actions: Seq<ActionView>,
    start: ContextView,
    trace: Seq<StepRecord>,
) where N: Node, F: Fn() -> N
    requires
        run_goes_on::<N, F>(names, constructors, actions, start, trace),
        trace.len() == actions.len(),
    ensures
        run_of::<N, F>(
            names,
            constructors,
            actions,
            start,
            trace,
            context_after(start, trace),
            (ReportView {
                steps: Seq::new(trace.len(), |j: int| step_text(actions[j].name)),
                error: None,
            }),
        ),
{
    reveal(run_goes_on);
    reveal(run_of);
    let outcomes = trace_outcomes(trace);
    assert forall|j: int| 0 <= j < outcomes.len() implies outcomes[j] is None by {
        assert(trace[j].outcome is Ok);
    }
    lemma_halt_at(outcomes, trace.len());
    assert(run_report(actions, outcomes).steps =~= Seq::new(
        trace.len(),
        |j: int| step_text(actions[j].name),
    ));
}

impl Pipeline {
    /// Runs the pipeline against a fresh context.
    ///
    /// See [`Pipeline::execute_with_input`].
    pub fn execute<N, F, E, S>(
        &self,
        registry: &NodeRegistry<N, F>,
        on_error: Option<E>,
        on_step: Option<S>,
    ) -> (report: RunReport) where N: Node, F: Fn() -> N, E: Fn(&str), S: Fn(&str)
        requires
            observer_ready(on_error),
            observer_ready(on_step),
        ensures
            exists|trace: Seq<StepRecord>, end: ContextView| #[trigger]
                run_of::<N, F>(
                    registry.names(),
                    registry.constructors(),
                    self@,
                    Map::<Seq<char>, ValueView>::empty(),
                    trace,
                    end,
                    report@,
                ),
    {
        let mut context = TypedContext::new();
        self.execute_with_input(registry, &mut context, on_error, on_step)
    }

    /// Runs the pipeline against the caller's context.
    ///
    /// The actions run in order. After each one that completes, `on_step` is
    /// told. At the first one that fails, `on_error` is told and the run ends:
    /// no later action is resolved or run. What was written to the context up
    /// to then stays written. The report holds what the observers were told,
    /// whether or not there were any.
    ///
    /// The run is one that some trace records: action by action, the context
    /// each one left and how it ended, each doing what its node may do.
    pub fn execute_with_input<N, F, E, S>(
        &self,
        registry: &NodeRegistry<N, F>,
        context: &mut TypedContext,
        on_error: Option<E>,
        on_step: Option<S>,
    ) -> (report: RunReport) where N: Node, F: Fn() -> N, E: Fn(&str), S: Fn(&str)
        requires
            observer_ready(on_error),
            observer_ready(on_step),
        ensures
            exists|trace: Seq<StepRecord>| #[trigger]
                run_of::<N, F>(
                    registry.names(),
                    registry.constructors(),
                    self@,
                    old(context)@,
                    trace,
                    final(context)@,
                    report@,
                ),
    {
        let ghost names = registry.names();
        let ghost constructors = registry.constructors();
        let ghost actions = self@;
        let ghost start = context@;
        let ghost mut trace: Seq<StepRecord> = Seq::empty();
        proof {
            reveal(run_goes_on);
            assert(run_goes_on::<N, F>(names, constructors, actions, start, trace));
        }
        let mut steps: Vec<String> = Vec::new();
        let mut i: usize = 0;
        while i < self.actions.len()
            invariant
                i <= self.actions@.len(),
                actions == self@,
                names == registry.names(),
                constructors == registry.constructors(),
                observer_ready(on_error),
                observer_ready(on_step),
                steps@.len() == i,
                texts(steps@) == Seq::new(i as nat, |j: int| step_text(actions[j].name)),
                trace.len() == i,
                start == old(context)@,
                run_goes_on::<N, F>(names, constructors, actions, start, trace),
                context@ == context_after(start, trace),
            decreases self.actions@.len() - i,
        {
            let action = &self.actions[i];
            assert(action@ == actions[i as int]);
            let outcome = node_execute(action, registry, context);
            let ghost record = StepRecord { after: context@, outcome };
            proof {
                lemma_run_grows::<N, F>(names, constructors, actions, start, trace, record);
            }
            match record_outcome(&mut steps, action.name.as_str(), outcome) {
                None => {
                    assert(texts(steps@) =~= Seq::new(
                        (i + 1) as nat,
                        |j: int| step_text(actions[j].name),
                    ));
                    assert(texts(steps@).len() == steps@.len());
                    notify(&on_step, steps[i].as_str());
                    proof {
                        trace = trace.push(record);
                    }
                },
                Some(message) => {
                    notify(&on_error, message.as_str());
                    let report = RunReport { steps, error: Some(message) };
                    proof {
                        assert(record.outcome is Err);
                        assert(report@ == (ReportView {
                            steps: Seq::new(i as nat, |j: int| step_text(actions[j].name)),
                            error: outcome_of(record.outcome),
                        }));
                        assert(run_of::<N, F>(
                            names,
                            constructors,
                            actions,
                            start,
                            trace.push(record),
                            context@,
                            report@,
                        ));
                    }
                    return report;
                },
            }
            i += 1;
        }
        let report = RunReport { steps, error: None };
        proof {
            lemma_run_ends::<N, F>(names, constructors, actions, start, trace);
            assert(report@ == (ReportView {
                steps: Seq::new(i as nat, |j: int| step_text(actions[j].name)),
                error: None,
            }));
        }
        report
    }
}

} // verus!

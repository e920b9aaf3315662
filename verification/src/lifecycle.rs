//! The decisions that govern one embedded viewer: when it may start, whether a finished start
//! is kept, what a destroy resets, and what the viewer's events and failures change.
//!
//! The host runs the effects (creating and destroying the viewer, calling into it) and reports
//! each outcome back here.
use vstd::prelude::*;
use vstd::string::StringExecFns;

use crate::types::opt_view;

verus! {

/// The kind of an event that the viewer reports.
#[derive(Clone, Copy, Debug, PartialEq, Eq, Structural)]
pub enum ViewerEventKind {
    Ready,
    Fullscreen,
    Play,
    Pause,
    TimeUpdate,
    TimelineChange,
    SelectionChange,
    RecordingOpen,
}

/// The state of the viewer's lifecycle.
pub struct ViewerLifecycle {
    /// The viewer has reported that it is ready.
    pub ready: bool,
    /// Counts the viewers attached since the last destroy.
    pub viewer_revision: u64,
    /// The most recent failure, as a message.
    pub last_error: Option<String>,
    /// A start has been issued and has not finished yet.
    pub starting: bool,
    /// Identifies the current start; every start and every destroy changes it.
    pub lifecycle_nonce: u64,
    /// A viewer is attached.
    pub attached: bool,
}

/// The lifecycle state as plain values.
pub struct LifecycleState {
    pub ready: bool,
    pub viewer_revision: u64,
    pub last_error: Option<Seq<char>>,
    pub starting: bool,
    pub lifecycle_nonce: u64,
    pub attached: bool,
}

impl View for ViewerLifecycle {
    type V = LifecycleState;

    open spec fn view(&self) -> LifecycleState {
        LifecycleState {
            ready: self.ready,
            viewer_revision: self.viewer_revision,
            last_error: opt_view(self.last_error),
            starting: self.starting,
            lifecycle_nonce: self.lifecycle_nonce,
            attached: self.attached,
        }
    }
}

/// The token after `nonce`, wrapping around at the end of the `u64` range.
pub open spec fn next_nonce(nonce: u64) -> u64 {
    if nonce == u64::MAX {
        0
    } else {
        (nonce + 1) as u64
    }
}

/// The state before any viewer was started.
pub open spec fn initial_lifecycle() -> LifecycleState {
    LifecycleState {
        ready: false,
        viewer_revision: 0,
        last_error: None,
        starting: false,
        lifecycle_nonce: 0,
        attached: false,
    }
}

/// A start request: refused while a start is under way or a viewer is attached; otherwise the
/// state is marked as starting, readiness and the last error are cleared, and a fresh token
/// identifies the start.
pub open spec fn start_step(s: LifecycleState) -> (LifecycleState, Option<u64>) {
    if s.starting || s.attached {
        (s, None)
    } else {
        let nonce = next_nonce(s.lifecycle_nonce);
        (
            LifecycleState {
                starting: true,
                ready: false,
                last_error: None,
                lifecycle_nonce: nonce,
                ..s
            },
            Some(nonce),
        )
    }
}

/// A viewer finished starting under token `nonce`: it is kept (and attached) only if `nonce`
/// is still the current token; either way the state is no longer starting.
pub open spec fn created_step(s: LifecycleState, nonce: u64) -> (LifecycleState, bool) {
    if nonce == s.lifecycle_nonce {
        (
            LifecycleState {
                starting: false,
                attached: true,
                viewer_revision: (s.viewer_revision + 1) as u64,
                ..s
            },
            true,
        )
    } else {
        (LifecycleState { starting: false, ..s }, false)
    }
}

/// A start failed with `message`.
pub open spec fn start_failed_step(s: LifecycleState, message: Seq<char>) -> LifecycleState {
    LifecycleState { starting: false, last_error: Some(message), ..s }
}

/// A failure recorded with `message`.
pub open spec fn error_step(s: LifecycleState, message: Seq<char>) -> LifecycleState {
    LifecycleState { last_error: Some(message), ..s }
}

/// The viewer reported an event of kind `kind`: only a ready event changes the state.
pub open spec fn event_step(s: LifecycleState, kind: ViewerEventKind) -> LifecycleState {
    if kind == ViewerEventKind::Ready {
        LifecycleState { ready: true, ..s }
    } else {
        s
    }
}

/// A destroy: the token changes (so any start under way is stale), nothing is starting, ready
/// or attached, and the revision is reset. The flag tells whether an attached viewer must be
/// torn down.
pub open spec fn destroy_step(s: LifecycleState) -> (LifecycleState, bool) {
    (
        LifecycleState {
            lifecycle_nonce: next_nonce(s.lifecycle_nonce),
            starting: false,
            ready: false,
            viewer_revision: 0,
            attached: false,
            ..s
        },
        s.attached,
    )
}

/// The message recorded when the startup options could not be encoded.
pub open spec fn startup_options_message(detail: Seq<char>) -> Seq<char> {
    "failed to serialize startup options: "@ + detail
}

/// The message recorded when a viewer event could not be decoded.
pub open spec fn event_decode_message(detail: Seq<char>) -> Seq<char> {
    "failed to deserialize viewer event: "@ + detail
}

/// The revision counts the attached viewer: 1 while one is attached, 0 otherwise.
pub open spec fn revision_matches(s: LifecycleState) -> bool {
    s.viewer_revision == if s.attached {
        1u64
    } else {
        0u64
    }
}

fn advance_nonce(nonce: u64) -> (next: u64)
    ensures
        next == next_nonce(nonce),
{
    nonce.wrapping_add(1)
}

impl ViewerLifecycle {
    pub fn new() -> (lifecycle: Self)
        ensures
            lifecycle@ == initial_lifecycle(),
    {
        ViewerLifecycle {
            ready: false,
            viewer_revision: 0,
            last_error: None,
            starting: false,
            lifecycle_nonce: 0,
            attached: false,
        }
    }

    /// Asks to start a viewer; `Some(nonce)` means the start goes ahead under that token.
    pub fn begin_start(&mut self) -> (start: Option<u64>)
        ensures
            (final(self)@, start) == start_step(old(self)@),
    {
        if self.starting || self.attached {
            return None;
        }
        self.starting = true;
        self.ready = false;
        self.last_error = None;
        self.lifecycle_nonce = advance_nonce(self.lifecycle_nonce);
        Some(self.lifecycle_nonce)
    }

    /// Reports that a viewer finished starting under `nonce`; `true` means it is kept, `false`
    /// that it belongs to a superseded start and must be torn down.
    pub fn on_viewer_created(&mut self, nonce: u64) -> (keep: bool)
        requires
            nonce == old(self).lifecycle_nonce ==> old(self).viewer_revision < u64::MAX,
        ensures
            (final(self)@, keep) == created_step(old(self)@, nonce),
            final(self).ready == old(self).ready,
            final(self)@.last_error == old(self)@.last_error,
            !final(self).starting,
            keep == (nonce == old(self).lifecycle_nonce),
            keep ==> final(self).attached,
            !keep ==> final(self).attached == old(self).attached && final(self).viewer_revision
                == old(self).viewer_revision,
    {
        self.starting = false;
        if nonce != self.lifecycle_nonce {
            return false;
        }
        self.attached = true;
        self.viewer_revision = self.viewer_revision + 1;
        true
    }

    /// Reports that a start failed with `message`.
    pub fn on_start_failed(&mut self, message: String)
        ensures
            final(self)@ == start_failed_step(old(self)@, message@),
    {
        self.starting = false;
        self.last_error = Some(message);
    }

    /// Reports that the startup options could not be encoded, for the reason `detail`.
    pub fn on_startup_options_failed(&mut self, detail: &str)
        ensures
            final(self)@ == start_failed_step(old(self)@, startup_options_message(detail@)),
    {
        let mut message = String::from_str("failed to serialize startup options: ");
        message.append(detail);
        self.on_start_failed(message);
    }

    /// Reports an event of the viewer.
    pub fn on_event(&mut self, kind: ViewerEventKind)
        ensures
            final(self)@ == event_step(old(self)@, kind),
            final(self).ready == (old(self).ready || kind == ViewerEventKind::Ready),
            kind != ViewerEventKind::Ready ==> final(self)@ == old(self)@,
    {
        if let ViewerEventKind::Ready = kind {
            self.ready = true;
        }
    }

    /// Reports that an event of the viewer could not be decoded, for the reason `detail`.
    pub fn on_event_decode_failed(&mut self, detail: &str)
        ensures
            final(self)@ == error_step(old(self)@, event_decode_message(detail@)),
    {
        let mut message = String::from_str("failed to deserialize viewer event: ");
        message.append(detail);
        self.record_error(message);
    }

    /// Records a failure.
    pub fn record_error(&mut self, message: String)
        ensures
            final(self)@ == error_step(old(self)@, message@),
    {
        self.last_error = Some(message);
    }

    /// Destroys the viewer; `true` means an attached viewer must be torn down.
    pub fn destroy(&mut self) -> (teardown: bool)
        ensures
            (final(self)@, teardown) == destroy_step(old(self)@),
    {
        self.lifecycle_nonce = advance_nonce(self.lifecycle_nonce);
        self.starting = false;
        self.ready = false;
        self.viewer_revision = 0;
        let teardown = self.attached;
        self.attached = false;
        teardown
    }

    /// Whether calls into the viewer can be made (they are skipped while none is attached).
    pub fn bridge_available(&self) -> (available: bool)
        ensures
            available == self@.attached,
    {
        self.attached
    }
}

/// The text of a failure reported by the viewer: its string form if it has one, else its JSON
/// form if it has one, else its debug form.
pub fn error_text(as_string: Option<String>, as_json: Option<String>, debug: String) -> (text: String)
    ensures
        text@ == match (as_string, as_json) {
            (Some(s), _) => s@,
            (None, Some(j)) => j@,
            (None, None) => debug@,
        },
{
    match as_string {
        Some(s) => s,
        None => match as_json {
            Some(j) => j,
            None => debug,
        },
    }
}

/// After a destroy, a start always goes ahead.
pub proof fn lemma_start_after_destroy_proceeds(s: LifecycleState)
    ensures
        start_step(destroy_step(s).0).1 is Some,
{
}

/// A destroy issued while a start is under way makes that start stale: when it finishes, its
/// viewer is torn down and nothing is attached.
pub proof fn lemma_destroy_supersedes_pending_start(s: LifecycleState)
    requires
        start_step(s).1 is Some,
    ensures
        ({
            let nonce = start_step(s).1->0;
            let after = created_step(destroy_step(start_step(s).0).0, nonce);
            &&& !after.1
            &&& !after.0.attached
            &&& after.0.viewer_revision == 0
        }),
{
}

/// A start is refused while another start is under way or a viewer is attached, and a refused
/// start changes nothing.
pub proof fn lemma_start_refused_while_busy(s: LifecycleState)
    ensures
        (start_step(s).1 is None) <==> (s.starting || s.attached),
        start_step(s).1 is None ==> start_step(s).0 == s,
{
}

/// The revision counts the attached viewer in the initial state and after every step, provided
/// a viewer is never reported as started under the current token while one is attached.
pub proof fn lemma_revision_counts_attached_viewer(
    s: LifecycleState,
    nonce: u64,
    kind: ViewerEventKind,
    message: Seq<char>,
)
    requires
        revision_matches(s),
    ensures
        revision_matches(initial_lifecycle()),
        revision_matches(start_step(s).0),
        revision_matches(destroy_step(s).0),
        revision_matches(event_step(s, kind)),
        revision_matches(error_step(s, message)),
        revision_matches(start_failed_step(s, message)),
        !(nonce == s.lifecycle_nonce && s.attached) ==> revision_matches(created_step(s, nonce).0),
{
}

/// Whether the sources and panel overrides may be sent to the viewer: only once a viewer has
/// been attached since the last destroy.
pub fn sync_allowed(viewer_revision: u64) -> (allowed: bool)
    ensures
        allowed == (viewer_revision > 0),
{
    viewer_revision > 0
}

/// One step of the lifecycle, as the host reports it.
pub enum LifecycleStep {
    Start,
    Created(u64),
    StartFailed(Seq<char>),
    Error(Seq<char>),
    Event(ViewerEventKind),
    Destroy,
}

/// The state after one step.
pub open spec fn apply_step(s: LifecycleState, step: LifecycleStep) -> LifecycleState {
    match step {
        LifecycleStep::Start => start_step(s).0,
        LifecycleStep::Created(nonce) => created_step(s, nonce).0,
        LifecycleStep::StartFailed(message) => start_failed_step(s, message),
        LifecycleStep::Error(message) => error_step(s, message),
        LifecycleStep::Event(kind) => event_step(s, kind),
        LifecycleStep::Destroy => destroy_step(s).0,
    }
}

/// The state after a run of steps, taken in order.
pub open spec fn run_steps(s: LifecycleState, steps: Seq<LifecycleStep>) -> LifecycleState
    decreases steps.len(),
{
    if steps.len() == 0 {
        s
    } else {
        apply_step(run_steps(s, steps.drop_last()), steps.last())
    }
}

/// The failure message that a step records, if it records one.
pub open spec fn recorded_message(step: LifecycleStep) -> Option<Seq<char>> {
    match step {
        LifecycleStep::StartFailed(message) => Some(message),
        LifecycleStep::Error(message) => Some(message),
        _ => None,
    }
}

/// Step `i` of the run is a start that goes ahead.
pub open spec fn accepted_start(s: LifecycleState, steps: Seq<LifecycleStep>, i: int) -> bool {
    &&& steps[i] is Start
    &&& start_step(run_steps(s, steps.take(i))).1 is Some
}

/// Step `i` of the run records a failure or is a start that goes ahead.
pub open spec fn touches_error(s: LifecycleState, steps: Seq<LifecycleStep>, i: int) -> bool {
    recorded_message(steps[i]) is Some || accepted_start(s, steps, i)
}

proof fn lemma_prefix_accepted(s: LifecycleState, steps: Seq<LifecycleStep>, j: int)
    requires
        0 <= j < steps.len() - 1,
    ensures
        accepted_start(s, steps, j) == accepted_start(s, steps.drop_last(), j),
        touches_error(s, steps, j) == touches_error(s, steps.drop_last(), j),
{
    assert(steps.take(j) =~= steps.drop_last().take(j));
    assert(steps[j] == steps.drop_last()[j]);
}

proof fn lemma_last_step_error(s: LifecycleState, steps: Seq<LifecycleStep>)
    requires
        steps.len() > 0,
    ensures
        ({
            let before = run_steps(s, steps.drop_last()).last_error;
            let after = run_steps(s, steps).last_error;
            let i = steps.len() - 1;
            &&& recorded_message(steps[i]) is Some ==> after == recorded_message(steps[i])
            &&& accepted_start(s, steps, i) ==> after is None
            &&& !touches_error(s, steps, i) ==> after == before
        }),
{
    assert(steps.take(steps.len() - 1) =~= steps.drop_last());
}

proof fn lemma_recorded_message_stays(s: LifecycleState, steps: Seq<LifecycleStep>, i: int)
    requires
        0 <= i < steps.len(),
        recorded_message(steps[i]) is Some,
        forall|j: int| i < j < steps.len() ==> !touches_error(s, steps, j),
    ensures
        run_steps(s, steps).last_error == recorded_message(steps[i]),
    decreases steps.len(),
{
    lemma_last_step_error(s, steps);
    if i < steps.len() - 1 {
        let init = steps.drop_last();
        assert(!touches_error(s, steps, steps.len() - 1));
        assert forall|j: int| i < j < init.len() implies !touches_error(s, init, j) by {
            lemma_prefix_accepted(s, steps, j);
        }
        assert(init[i] == steps[i]);
        lemma_recorded_message_stays(s, init, i);
    }
}

proof fn lemma_start_clear_stays(s: LifecycleState, steps: Seq<LifecycleStep>, i: int)
    requires
        0 <= i < steps.len(),
        accepted_start(s, steps, i),
        forall|j: int| i < j < steps.len() ==> !touches_error(s, steps, j),
    ensures
        run_steps(s, steps).last_error is None,
    decreases steps.len(),
{
    lemma_last_step_error(s, steps);
    if i < steps.len() - 1 {
        let init = steps.drop_last();
        assert(!touches_error(s, steps, steps.len() - 1));
        assert forall|j: int| i < j < init.len() implies !touches_error(s, init, j) by {
            lemma_prefix_accepted(s, steps, j);
        }
        lemma_prefix_accepted(s, steps, i);
        lemma_start_clear_stays(s, init, i);
    }
}

proof fn lemma_untouched_error_stays(s: LifecycleState, steps: Seq<LifecycleStep>)
    requires
        forall|j: int| 0 <= j < steps.len() ==> !touches_error(s, steps, j),
    ensures
        run_steps(s, steps).last_error == s.last_error,
    decreases steps.len(),
{
    if steps.len() > 0 {
        let init = steps.drop_last();
        lemma_last_step_error(s, steps);
        assert(!touches_error(s, steps, steps.len() - 1));
        assert forall|j: int| 0 <= j < init.len() implies !touches_error(s, init, j) by {
            lemma_prefix_accepted(s, steps, j);
        }
        lemma_untouched_error_stays(s, init);
    }
}

/// After any run of steps, the last error is the message of the latest failure recorded since
/// the latest start that went ahead; a start that goes ahead clears it, and where neither
/// happened the error is the one the run began with. Destroys, events and finished starts leave
/// it as it was.
pub proof fn lemma_last_error_is_latest_since_start(s: LifecycleState, steps: Seq<LifecycleStep>)
    ensures
        forall|i: int|
            0 <= i < steps.len() && recorded_message(#[trigger] steps[i]) is Some && (forall|j: int|
                i < j < steps.len() ==> !touches_error(s, steps, j)) ==> run_steps(s, steps).last_error
                == recorded_message(steps[i]),
        forall|i: int|
            0 <= i < steps.len() && #[trigger] accepted_start(s, steps, i) && (forall|j: int|
                i < j < steps.len() ==> !touches_error(s, steps, j)) ==> run_steps(
                s,
                steps,
            ).last_error is None,
        (forall|j: int| 0 <= j < steps.len() ==> !touches_error(s, steps, j)) ==> run_steps(
            s,
            steps,
        ).last_error == s.last_error,
{
    assert forall|i: int|
        0 <= i < steps.len() && recorded_message(#[trigger] steps[i]) is Some && (forall|j: int|
            i < j < steps.len() ==> !touches_error(s, steps, j)) implies run_steps(
        s,
        steps,
    ).last_error == recorded_message(steps[i]) by {
        lemma_recorded_message_stays(s, steps, i);
    }
    assert forall|i: int|
        0 <= i < steps.len() && #[trigger] accepted_start(s, steps, i) && (forall|j: int|
            i < j < steps.len() ==> !touches_error(s, steps, j)) implies run_steps(
        s,
        steps,
    ).last_error is None by {
        lemma_start_clear_stays(s, steps, i);
    }
    if forall|j: int| 0 <= j < steps.len() ==> !touches_error(s, steps, j) {
        lemma_untouched_error_stays(s, steps);
    }
}

/// An event other than a ready event changes nothing, and a ready event only makes the viewer
/// ready.
pub proof fn lemma_only_ready_event_sets_readiness(s: LifecycleState, kind: ViewerEventKind)
    ensures
        kind != ViewerEventKind::Ready ==> event_step(s, kind) == s,
        event_step(s, kind).ready == (s.ready || kind == ViewerEventKind::Ready),
        event_step(s, kind).last_error == s.last_error,
        event_step(s, kind).attached == s.attached,
        event_step(s, kind).viewer_revision == s.viewer_revision,
        event_step(s, kind).lifecycle_nonce == s.lifecycle_nonce,
        event_step(s, kind).starting == s.starting,
{
}

/// Finishing a start, kept or not, leaves readiness and the last error as they were: readiness
/// only comes from a ready event.
pub proof fn lemma_finished_start_keeps_readiness(s: LifecycleState, nonce: u64)
    ensures
        created_step(s, nonce).0.ready == s.ready,
        created_step(s, nonce).0.last_error == s.last_error,
{
}

/// The step is a ready event.
pub open spec fn is_ready_event(step: LifecycleStep) -> bool {
    match step {
        LifecycleStep::Event(kind) => kind == ViewerEventKind::Ready,
        _ => false,
    }
}

/// Step `i` of the run is a ready event, a start that goes ahead, or a destroy.
pub open spec fn touches_ready(s: LifecycleState, steps: Seq<LifecycleStep>, i: int) -> bool {
    is_ready_event(steps[i]) || accepted_start(s, steps, i) || steps[i] is Destroy
}

proof fn lemma_prefix_touches_ready(s: LifecycleState, steps: Seq<LifecycleStep>, j: int)
    requires
        0 <= j < steps.len() - 1,
    ensures
        touches_ready(s, steps, j) == touches_ready(s, steps.drop_last(), j),
        accepted_start(s, steps, j) == accepted_start(s, steps.drop_last(), j),
{
    lemma_prefix_accepted(s, steps, j);
}

proof fn lemma_last_step_ready(s: LifecycleState, steps: Seq<LifecycleStep>)
    requires
        steps.len() > 0,
    ensures
        ({
            let before = run_steps(s, steps.drop_last()).ready;
            let after = run_steps(s, steps).ready;
            let i = steps.len() - 1;
            &&& is_ready_event(steps[i]) ==> after
            &&& (accepted_start(s, steps, i) || steps[i] is Destroy) ==> !after
            &&& !touches_ready(s, steps, i) ==> after == before
        }),
{
    assert(steps.take(steps.len() - 1) =~= steps.drop_last());
}

proof fn lemma_ready_event_stays(s: LifecycleState, steps: Seq<LifecycleStep>, i: int)
    requires
        0 <= i < steps.len(),
        is_ready_event(steps[i]),
        forall|j: int| i < j < steps.len() ==> !touches_ready(s, steps, j),
    ensures
        run_steps(s, steps).ready,
    decreases steps.len(),
{
    lemma_last_step_ready(s, steps);
    if i < steps.len() - 1 {
        let init = steps.drop_last();
        assert(!touches_ready(s, steps, steps.len() - 1));
        assert forall|j: int| i < j < init.len() implies !touches_ready(s, init, j) by {
            lemma_prefix_touches_ready(s, steps, j);
        }
        assert(init[i] == steps[i]);
        lemma_ready_event_stays(s, init, i);
    }
}

proof fn lemma_clear_stays(s: LifecycleState, steps: Seq<LifecycleStep>, i: int)
    requires
        0 <= i < steps.len(),
        accepted_start(s, steps, i) || steps[i] is Destroy,
        forall|j: int| i < j < steps.len() ==> !touches_ready(s, steps, j),
    ensures
        !run_steps(s, steps).ready,
    decreases steps.len(),
{
    lemma_last_step_ready(s, steps);
    if i < steps.len() - 1 {
        let init = steps.drop_last();
        assert(!touches_ready(s, steps, steps.len() - 1));
        assert forall|j: int| i < j < init.len() implies !touches_ready(s, init, j) by {
            lemma_prefix_touches_ready(s, steps, j);
        }
        lemma_prefix_touches_ready(s, steps, i);
        assert(init[i] == steps[i]);
        lemma_clear_stays(s, init, i);
    }
}

proof fn lemma_untouched_ready_stays(s: LifecycleState, steps: Seq<LifecycleStep>)
    requires
        forall|j: int| 0 <= j < steps.len() ==> !touches_ready(s, steps, j),
    ensures
        run_steps(s, steps).ready == s.ready,
    decreases steps.len(),
{
    if steps.len() > 0 {
        let init = steps.drop_last();
        lemma_last_step_ready(s, steps);
        assert(!touches_ready(s, steps, steps.len() - 1));
        assert forall|j: int| 0 <= j < init.len() implies !touches_ready(s, init, j) by {
            lemma_prefix_touches_ready(s, steps, j);
        }
        lemma_untouched_ready_stays(s, init);
    }
}

/// After any run of steps, the viewer is ready exactly as the latest ready event, accepted
/// start or destroy says: ready after a ready event, not ready after a start that goes ahead or
/// a destroy; where none of these happened, readiness is what the run began with. Other events,
/// finished starts, failures and refused starts leave it as it was.
pub proof fn lemma_ready_only_from_ready_event(s: LifecycleState, steps: Seq<LifecycleStep>)
    ensures
        forall|i: int|
            0 <= i < steps.len() && is_ready_event(#[trigger] steps[i]) && (forall|j: int|
                i < j < steps.len() ==> !touches_ready(s, steps, j)) ==> run_steps(s, steps).ready,
        forall|i: int|
            0 <= i < steps.len() && (accepted_start(s, steps, i) || (#[trigger] steps[i]) is Destroy)
                && (forall|j: int| i < j < steps.len() ==> !touches_ready(s, steps, j))
                ==> !run_steps(s, steps).ready,
        (forall|j: int| 0 <= j < steps.len() ==> !touches_ready(s, steps, j)) ==> run_steps(
            s,
            steps,
        ).ready == s.ready,
{
    assert forall|i: int|
        0 <= i < steps.len() && is_ready_event(#[trigger] steps[i]) && (forall|j: int|
            i < j < steps.len() ==> !touches_ready(s, steps, j)) implies run_steps(s, steps).ready by {
        lemma_ready_event_stays(s, steps, i);
    }
    assert forall|i: int|
        0 <= i < steps.len() && (accepted_start(s, steps, i) || (#[trigger] steps[i]) is Destroy)
            && (forall|j: int| i < j < steps.len() ==> !touches_ready(s, steps, j)) implies !run_steps(
        s,
        steps,
    ).ready by {
        lemma_clear_stays(s, steps, i);
    }
    if forall|j: int| 0 <= j < steps.len() ==> !touches_ready(s, steps, j) {
        lemma_untouched_ready_stays(s, steps);
    }
}

} // verus!

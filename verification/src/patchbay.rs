//! The patchbay as its callers see it: one session on one of two backends.

use vstd::prelude::*;
use crate::config::{
    no_number_is_given_twice, nth_number, number_after, settle, settled, unique_names_differ,
    ConfigView, PatchbayConfig, SessionCounter,
};
use crate::discord_capture::{
    capture_transition, CaptureChoice, CaptureEvent, CaptureStep, CaptureStepView, CaptureView,
    ChoiceView, DiscordCapture,
};
use crate::error::{BackendError, BackendErrorView};
use crate::models::RouteFilter;
use crate::state::{
    clear_transition, dispose_transition, fresh_state, route_transition, sink_transition,
    ClearEvent, ClearStep, ClearStepView, DisposeEvent, DisposeStep, DisposeStepView, ListEvent,
    ListStep, PatchbayState, RouteEvent, RouteStep, RouteStepView, SinkEvent, SinkStep,
    SinkStepView, StateView,
};
use crate::state_native::{
    ensure_transition, fresh_session, mic_mute_transition, muting_sets_what_was_asked_for,
    native_clear_transition, native_dispose_transition, native_route_transition, no_filter,
    restore_transition, set_default_transition, DefaultEvent, DefaultStep, DefaultStepView,
    EnsureEvent, EnsureStep, EnsureStepView, MicMuteEvent, MicMuteStep, MicMuteStepView, NativeClearEvent, NativeClearStep,
    NativeClearStepView, NativeDisposeEvent, NativeDisposeStep, NativeDisposeStepView,
    NativeRouteEvent, NativeRouteStep, NativeRouteStepView, NativeView, PatchbayStateNative,
    RestoreEvent,
};

verus! {

#[derive(Debug)]
pub enum BackendState {
    /// The command-line tools.
    Legacy(PatchbayState),
    /// The live graph.
    Native { state: PatchbayStateNative, capture: DiscordCapture },
}

#[derive(Debug)]
pub struct AudioSharePatchbay {
    pub state: BackendState,
}

/// The first step of a listing on the backend in use.
pub enum ListRun {
    Legacy(ListStep),
    /// Snapshot the graph.
    Native,
}

/// The first step of the search for a window share in progress.
pub enum HintRun {
    /// Read the graph.
    Legacy,
    /// Snapshot the graph.
    Native,
}

/// The first step of the making of the sink.
pub enum SinkRun {
    Legacy(SinkStep),
    Native(EnsureStep),
}

/// The first step of a routing.
pub enum RouteRun {
    Legacy(RouteStep),
    Native(NativeRouteStep),
}

/// The first step of a removal of all routes.
pub enum ClearRun {
    Legacy(ClearStep),
    Native(NativeClearStep),
}

/// The first step of the taking down.
pub enum DisposeRun {
    Legacy(DisposeStep),
    Native(NativeDisposeStep),
}

/// A session, by what its backend knows.
pub enum PatchbayView {
    Legacy(StateView),
    Native { state: NativeView, capture: CaptureView },
}

impl View for AudioSharePatchbay {
    type V = PatchbayView;

    open spec fn view(&self) -> PatchbayView {
        match self.state {
            BackendState::Legacy(state) => PatchbayView::Legacy(state@),
            BackendState::Native { state, capture } => PatchbayView::Native {
                state: state@,
                capture: capture@,
            },
        }
    }
}

pub enum SinkRunView {
    Legacy(SinkStepView),
    Native(EnsureStepView),
}

impl View for SinkRun {
    type V = SinkRunView;

    open spec fn view(&self) -> SinkRunView {
        match self {
            SinkRun::Legacy(step) => SinkRunView::Legacy(step@),
            SinkRun::Native(step) => SinkRunView::Native(step@),
        }
    }
}

pub enum RouteRunView {
    Legacy(RouteStepView),
    Native(NativeRouteStepView),
}

impl View for RouteRun {
    type V = RouteRunView;

    open spec fn view(&self) -> RouteRunView {
        match self {
            RouteRun::Legacy(step) => RouteRunView::Legacy(step@),
            RouteRun::Native(step) => RouteRunView::Native(step@),
        }
    }
}

pub enum ClearRunView {
    Legacy(ClearStepView),
    Native(NativeClearStepView),
}

impl View for ClearRun {
    type V = ClearRunView;

    open spec fn view(&self) -> ClearRunView {
        match self {
            ClearRun::Legacy(step) => ClearRunView::Legacy(step@),
            ClearRun::Native(step) => ClearRunView::Native(step@),
        }
    }
}

pub enum DisposeRunView {
    Legacy(DisposeStepView),
    Native(NativeDisposeStepView),
}

impl View for DisposeRun {
    type V = DisposeRunView;

    open spec fn view(&self) -> DisposeRunView {
        match self {
            DisposeRun::Legacy(step) => DisposeRunView::Legacy(step@),
            DisposeRun::Native(step) => DisposeRunView::Native(step@),
        }
    }
}

/// A session as it begins.
pub open spec fn fresh_patchbay(
    c: ConfigView,
    native_started: bool,
    pid: u32,
    unique: u64,
) -> PatchbayView {
    if native_started {
        PatchbayView::Native {
            state: NativeView {
                config: settled(c),
                session: fresh_session(settled(c), pid, unique),
            },
            capture: CaptureView {
                choice: ChoiceView { node_ids: Seq::empty(), filter: no_filter() },
                held: Seq::empty(),
                null_sink: None,
            },
        }
    } else {
        PatchbayView::Legacy(fresh_state(settled(c), pid, unique))
    }
}

/// The making of the sink begins.
pub open spec fn begin_sink(p: PatchbayView) -> (PatchbayView, SinkRunView) {
    match p {
        PatchbayView::Legacy(a) => {
            let (b, step) = sink_transition(a, SinkEvent::Asked);
            (PatchbayView::Legacy(b), SinkRunView::Legacy(step))
        },
        PatchbayView::Native { state, capture } => {
            let (after, step) = ensure_transition(state, EnsureEvent::Asked);
            (PatchbayView::Native { state: after, capture }, SinkRunView::Native(step))
        },
    }
}

/// A routing begins.
pub open spec fn begin_route(p: PatchbayView, node_ids: Vec<u32>, filter: RouteFilter) -> (
    PatchbayView,
    RouteRunView,
) {
    match p {
        PatchbayView::Legacy(a) => {
            let (b, step) = route_transition(a, RouteEvent::Asked { node_ids });
            (PatchbayView::Legacy(b), RouteRunView::Legacy(step))
        },
        PatchbayView::Native { state, capture } => {
            let (after, step) = native_route_transition(
                state,
                NativeRouteEvent::Asked { node_ids, filter },
            );
            (PatchbayView::Native { state: after, capture }, RouteRunView::Native(step))
        },
    }
}

/// The removal of all routes begins.
pub open spec fn begin_clear(p: PatchbayView) -> (PatchbayView, ClearRunView) {
    match p {
        PatchbayView::Legacy(a) => {
            let (b, step) = clear_transition(a, ClearEvent::Asked);
            (PatchbayView::Legacy(b), ClearRunView::Legacy(step))
        },
        PatchbayView::Native { state, capture } => {
            let (after, step) = native_clear_transition(state, NativeClearEvent::Asked);
            (PatchbayView::Native { state: after, capture }, ClearRunView::Native(step))
        },
    }
}

/// The taking down begins.
pub open spec fn begin_dispose(p: PatchbayView) -> (PatchbayView, DisposeRunView) {
    match p {
        PatchbayView::Legacy(a) => {
            let (b, step) = dispose_transition(a, DisposeEvent::Asked);
            (PatchbayView::Legacy(b), DisposeRunView::Legacy(step))
        },
        PatchbayView::Native { state, capture } => {
            let (after, step) = native_dispose_transition(state, NativeDisposeEvent::Asked);
            (PatchbayView::Native { state: after, capture }, DisposeRunView::Native(step))
        },
    }
}

/// How the sink becomes the default.
pub open spec fn default_set(p: PatchbayView, event: DefaultEvent) -> (
    PatchbayView,
    DefaultStepView,
) {
    match p {
        PatchbayView::Legacy(_) => (
            p,
            DefaultStepView::Done(Err(unsupported("setDefaultSinkToVirtual"@))),
        ),
        PatchbayView::Native { state, capture } => {
            let (after, step) = set_default_transition(state, event);
            (PatchbayView::Native { state: after, capture }, step)
        },
    }
}

/// How the default is restored.
pub open spec fn default_restored(p: PatchbayView, event: RestoreEvent) -> (
    PatchbayView,
    DefaultStepView,
) {
    match p {
        PatchbayView::Legacy(_) => (p, DefaultStepView::Done(Ok(()))),
        PatchbayView::Native { state, capture } => {
            let (after, step) = restore_transition(state, event);
            (PatchbayView::Native { state: after, capture }, step)
        },
    }
}

/// What Discord hears is chosen, or the graph has changed under what was chosen.
pub open spec fn capture_followed(
    p: PatchbayView,
    event: CaptureEvent,
    refused: Result<(), BackendErrorView>,
) -> (PatchbayView, CaptureStepView) {
    match p {
        PatchbayView::Legacy(_) => (p, CaptureStepView::Done(refused)),
        PatchbayView::Native { state, capture } => {
            let (after, step) = capture_transition(capture, event);
            (PatchbayView::Native { state, capture: after }, step)
        },
    }
}

pub open spec fn unsupported(what: Seq<char>) -> BackendErrorView {
    BackendErrorView::Message(what + " is not supported by the legacy backend"@)
}

fn refuse(what: &str) -> (r: BackendError)
    ensures
        r@ == unsupported(what@),
{
    BackendError::Message(crate::text::cat(what, " is not supported by the legacy backend"))
}

impl AudioSharePatchbay {
    /// A session of process `pid`, under the next number, on the native backend
    /// if that has been started, and else on the legacy one.
    pub fn new(
        config: &PatchbayConfig,
        native_started: bool,
        pid: u32,
        numbers: &mut SessionCounter,
    ) -> (r: Self)
        ensures
            final(numbers).next == number_after(old(numbers).next),
            match r.state {
                BackendState::Legacy(state) => !native_started && state@ == fresh_state(
                    settled(config@),
                    pid,
                    old(numbers).next,
                ),
                BackendState::Native { state, capture } => native_started && state@ == (
                NativeView {
                    config: settled(config@),
                    session: fresh_session(settled(config@), pid, old(numbers).next),
                }) && capture@.choice.node_ids.len() == 0 && capture@.choice.filter == no_filter()
                    && capture@.held.len() == 0 && capture@.null_sink is None,
            },
            r@ == fresh_patchbay(config@, native_started, pid, old(numbers).next),
    {
        let config = settle(config);
        if native_started {
            let capture = DiscordCapture::new();
            assert(capture@.choice.node_ids =~= Seq::<u32>::empty());
            assert(capture@.held =~= Seq::empty());
            AudioSharePatchbay {
                state: BackendState::Native {
                    state: PatchbayStateNative::spawn(&config, pid, numbers),
                    capture,
                },
            }
        } else {
            AudioSharePatchbay {
                state: BackendState::Legacy(PatchbayState::new(&config, pid, numbers)),
            }
        }
    }

    pub fn list_shareable_nodes(&self, include_devices: bool) -> (run: ListRun)
        ensures
            match self.state {
                BackendState::Legacy(_) => run matches ListRun::Legacy(step) && step
                    is CheckPipewire,
                BackendState::Native { .. } => run is Native,
            },
    {
        match &self.state {
            BackendState::Legacy(state) => ListRun::Legacy(
                state.list_shareable_nodes(include_devices, ListEvent::Asked),
            ),
            BackendState::Native { .. } => ListRun::Native,
        }
    }

    pub fn find_screencast_hint(&self) -> (run: HintRun)
        ensures
            match self.state {
                BackendState::Legacy(_) => run is Legacy,
                BackendState::Native { .. } => run is Native,
            },
    {
        match &self.state {
            BackendState::Legacy(_) => HintRun::Legacy,
            BackendState::Native { .. } => HintRun::Native,
        }
    }

    pub fn ensure_virtual_sink(&mut self) -> (run: SinkRun)
        ensures
            match (old(self).state, final(self).state, run) {
                (BackendState::Legacy(a), BackendState::Legacy(b), SinkRun::Legacy(step)) => (
                    b@,
                    step@,
                ) == sink_transition(a@, SinkEvent::Asked),
                (
                    BackendState::Native { state: a, capture: c },
                    BackendState::Native { state: b, capture: d },
                    SinkRun::Native(step),
                ) => (b@, step@) == ensure_transition(a@, EnsureEvent::Asked) && c == d,
                _ => false,
            },
            (final(self)@, run@) == begin_sink(old(self)@),
    {
        match &mut self.state {
            BackendState::Legacy(state) => SinkRun::Legacy(
                state.ensure_virtual_sink(SinkEvent::Asked),
            ),
            BackendState::Native { state, .. } => SinkRun::Native(
                state.ensure_virtual_sink(EnsureEvent::Asked),
            ),
        }
    }

    /// The filter is for the native backend alone.
    pub fn route_nodes(&mut self, node_ids: Vec<u32>, filter: RouteFilter) -> (run: RouteRun)
        ensures
            match (old(self).state, final(self).state, run) {
                (BackendState::Legacy(a), BackendState::Legacy(b), RouteRun::Legacy(step)) => (
                    b@,
                    step@,
                ) == route_transition(a@, RouteEvent::Asked { node_ids }),
                (
                    BackendState::Native { state: a, capture: c },
                    BackendState::Native { state: b, capture: d },
                    RouteRun::Native(step),
                ) => (b@, step@) == native_route_transition(
                    a@,
                    NativeRouteEvent::Asked { node_ids, filter },
                ) && c == d,
                _ => false,
            },
            (final(self)@, run@) == begin_route(old(self)@, node_ids, filter),
    {
        match &mut self.state {
            BackendState::Legacy(state) => RouteRun::Legacy(
                state.route_nodes(RouteEvent::Asked { node_ids }),
            ),
            BackendState::Native { state, .. } => RouteRun::Native(
                state.route_nodes(NativeRouteEvent::Asked { node_ids, filter }),
            ),
        }
    }

    pub fn clear_routes(&mut self) -> (run: ClearRun)
        ensures
            match (old(self).state, final(self).state, run) {
                (BackendState::Legacy(a), BackendState::Legacy(b), ClearRun::Legacy(step)) => (
                    b@,
                    step@,
                ) == clear_transition(a@, ClearEvent::Asked),
                (
                    BackendState::Native { state: a, capture: c },
                    BackendState::Native { state: b, capture: d },
                    ClearRun::Native(step),
                ) => (b@, step@) == native_clear_transition(a@, NativeClearEvent::Asked) && c == d,
                _ => false,
            },
            (final(self)@, run@) == begin_clear(old(self)@),
    {
        match &mut self.state {
            BackendState::Legacy(state) => ClearRun::Legacy(state.clear_routes(ClearEvent::Asked)),
            BackendState::Native { state, .. } => ClearRun::Native(
                state.clear_routes(NativeClearEvent::Asked),
            ),
        }
    }

    pub fn dispose(&mut self) -> (run: DisposeRun)
        ensures
            match (old(self).state, final(self).state, run) {
                (BackendState::Legacy(a), BackendState::Legacy(b), DisposeRun::Legacy(step)) => (
                    b@,
                    step@,
                ) == dispose_transition(a@, DisposeEvent::Asked),
                (
                    BackendState::Native { state: a, capture: c },
                    BackendState::Native { state: b, capture: d },
                    DisposeRun::Native(step),
                ) => (b@, step@) == native_dispose_transition(a@, NativeDisposeEvent::Asked) && c
                    == d,
                _ => false,
            },
            (final(self)@, run@) == begin_dispose(old(self)@),
    {
        match &mut self.state {
            BackendState::Legacy(state) => DisposeRun::Legacy(state.dispose(DisposeEvent::Asked)),
            BackendState::Native { state, .. } => DisposeRun::Native(
                state.dispose(NativeDisposeEvent::Asked),
            ),
        }
    }

    /// Mutes or unmutes the microphone. The legacy backend cannot.
    pub fn set_virtual_mic_mute(&self, mute: bool, event: MicMuteEvent) -> (step: MicMuteStep)
        ensures
            step@ == (match self.state {
                BackendState::Legacy(_) => MicMuteStepView::Done(
                    Err(unsupported("setVirtualMicMute"@)),
                ),
                BackendState::Native { state, .. } => mic_mute_transition(state@, mute, event),
            }),
    {
        match &self.state {
            BackendState::Legacy(_) => MicMuteStep::Done(Err(refuse("setVirtualMicMute"))),
            BackendState::Native { state, .. } => state.set_virtual_mic_mute(mute, event),
        }
    }

    /// Makes the sink the default. The legacy backend cannot.
    pub fn set_default_sink_to_virtual(&mut self, event: DefaultEvent) -> (step: DefaultStep)
        ensures
            match (old(self).state, final(self).state) {
                (BackendState::Legacy(a), BackendState::Legacy(b)) => a == b && step@
                    == DefaultStepView::Done(Err(unsupported("setDefaultSinkToVirtual"@))),
                (
                    BackendState::Native { state: a, capture: c },
                    BackendState::Native { state: b, capture: d },
                ) => (b@, step@) == set_default_transition(a@, event) && c == d,
                _ => false,
            },
            (final(self)@, step@) == default_set(old(self)@, event),
    {
        match &mut self.state {
            BackendState::Legacy(_) => DefaultStep::Done(Err(refuse("setDefaultSinkToVirtual"))),
            BackendState::Native { state, .. } => state.set_default_sink_to_virtual(event),
        }
    }

    /// Restores the default. On the legacy backend there is nothing to restore.
    pub fn restore_default_sink(&mut self, event: RestoreEvent) -> (step: DefaultStep)
        ensures
            match (old(self).state, final(self).state) {
                (BackendState::Legacy(a), BackendState::Legacy(b)) => a == b && step@
                    == DefaultStepView::Done(Ok(())),
                (
                    BackendState::Native { state: a, capture: c },
                    BackendState::Native { state: b, capture: d },
                ) => (b@, step@) == restore_transition(a@, event) && c == d,
                _ => false,
            },
            (final(self)@, step@) == default_restored(old(self)@, event),
    {
        match &mut self.state {
            BackendState::Legacy(_) => DefaultStep::Done(Ok(())),
            BackendState::Native { state, .. } => state.restore_default_sink(event),
        }
    }

    /// Routes the given nodes, and no others, into every capture node of
    /// Discord. The legacy backend cannot.
    pub fn set_discord_capture_targets(&mut self, node_ids: Vec<u32>, filter: RouteFilter) -> (step:
        CaptureStep)
        ensures
            match (old(self).state, final(self).state) {
                (BackendState::Legacy(a), BackendState::Legacy(b)) => a == b && step@
                    == CaptureStepView::Done(Err(unsupported("setDiscordCaptureTargets"@))),
                (
                    BackendState::Native { state: a, capture: c },
                    BackendState::Native { state: b, capture: d },
                ) => a == b && (d@, step@) == capture_transition(
                    c@,
                    CaptureEvent::Chosen { choice: CaptureChoice { node_ids, filter } },
                ),
                _ => false,
            },
            (final(self)@, step@) == capture_followed(
                old(self)@,
                CaptureEvent::Chosen { choice: CaptureChoice { node_ids, filter } },
                Err(unsupported("setDiscordCaptureTargets"@)),
            ),
    {
        match &mut self.state {
            BackendState::Legacy(_) => CaptureStep::Done(Err(refuse("setDiscordCaptureTargets"))),
            BackendState::Native { capture, .. } => capture.follow(
                CaptureEvent::Chosen { choice: CaptureChoice { node_ids, filter } },
            ),
        }
    }

    /// Applies the present choice to a graph that has changed. On the legacy
    /// backend there is nothing to apply.
    pub fn sync_discord_capture_links(&mut self) -> (step: CaptureStep)
        ensures
            match (old(self).state, final(self).state) {
                (BackendState::Legacy(a), BackendState::Legacy(b)) => a == b && step@
                    == CaptureStepView::Done(Ok(())),
                (
                    BackendState::Native { state: a, capture: c },
                    BackendState::Native { state: b, capture: d },
                ) => a == b && (d@, step@) == capture_transition(c@, CaptureEvent::GraphChanged),
                _ => false,
            },
            (final(self)@, step@) == capture_followed(
                old(self)@,
                CaptureEvent::GraphChanged,
                Ok(()),
            ),
    {
        match &mut self.state {
            BackendState::Legacy(_) => CaptureStep::Done(Ok(())),
            BackendState::Native { capture, .. } => capture.follow(CaptureEvent::GraphChanged),
        }
    }
}

/// Two sessions of one process never share the name of their sink, whatever they
/// are set up with and whichever backend they are on, nor do two legacy sessions
/// share the name of their microphone.
pub proof fn sessions_never_share_a_sink_name(
    a: ConfigView,
    b: ConfigView,
    pid: u32,
    n: nat,
    m: nat,
)
    requires
        n < m,
        m < u64::MAX,
    ensures
        ({
            let (i, j) = (nth_number(n), nth_number(m));
            let (la, lb) = (fresh_state(a, pid, i), fresh_state(b, pid, j));
            let (na, nb) = (fresh_session(a, pid, i), fresh_session(b, pid, j));
            &&& la.sink_name != lb.sink_name
            &&& la.sink_name != nb.sink_name
            &&& na.sink_name != lb.sink_name
            &&& na.sink_name != nb.sink_name
            &&& la.virtual_mic_name is Some ==> la.virtual_mic_name != lb.virtual_mic_name
        }),
{
    no_number_is_given_twice(n, m);
    unique_names_differ(a.sink_prefix, b.sink_prefix, pid, nth_number(n), nth_number(m));
    unique_names_differ(a.mic_base(), b.mic_base(), pid, nth_number(n), nth_number(m));
}

/// A session runs on the native backend exactly if that was started, settled
/// from what was set up, and begins with nothing made, nothing chosen and nothing
/// filtered out.
pub proof fn a_session_begins_with_nothing(
    c: ConfigView,
    pid: u32,
    unique: u64,
)
    ensures
        fresh_patchbay(c, false, pid, unique) matches PatchbayView::Legacy(s) && s == fresh_state(
            settled(c),
            pid,
            unique,
        ),
        fresh_patchbay(c, true, pid, unique) matches PatchbayView::Native { state, capture }
            && state.config == settled(c) && state.session == fresh_session(
            settled(c),
            pid,
            unique,
        ) && capture.choice.node_ids.len() == 0 && !capture.choice.filter.only_speakers
            && !capture.choice.filter.only_default_speakers
            && !capture.choice.filter.ignore_devices && !capture.choice.filter.ignore_virtual
            && !capture.choice.filter.ignore_input_media && capture.held.len() == 0
            && capture.null_sink is None,
{
}

/// A request is begun on the backend in use, with what it was given: the making
/// of the sink, a routing of the nodes that were chosen, through the filter on the
/// native backend, the removal of all routes and the taking down. None of them
/// touches what Discord hears.
pub proof fn requests_begin_on_the_backend_in_use(
    p: PatchbayView,
    node_ids: Vec<u32>,
    filter: RouteFilter,
)
    requires
        node_ids@.len() > 0,
    ensures
        match p {
            PatchbayView::Legacy(s) => {
                &&& begin_sink(p) == (p, SinkRunView::Legacy(SinkStepView::CheckPipewire))
                &&& begin_route(p, node_ids, filter) == (
                    p,
                    RouteRunView::Legacy(RouteStepView::EnsureSink { node_ids: node_ids@ }),
                )
                &&& begin_clear(p).1 == ClearRunView::Legacy(
                    clear_transition(s, ClearEvent::Asked).1,
                )
                &&& begin_clear(p).0 == PatchbayView::Legacy(
                    clear_transition(s, ClearEvent::Asked).0,
                )
                &&& begin_dispose(p) == (p, DisposeRunView::Legacy(DisposeStepView::ClearRoutes))
            },
            PatchbayView::Native { state, capture } => {
                &&& begin_sink(p).0 == p && (begin_sink(p).1 matches SinkRunView::Native(step)
                    && step is Seek)
                &&& begin_route(p, node_ids, filter) == (
                    p,
                    RouteRunView::Native(
                        NativeRouteStepView::EnsureSink { node_ids: node_ids@, filter },
                    ),
                )
                &&& begin_clear(p).1 == ClearRunView::Native(
                    NativeClearStepView::Unlink { handles: state.session.route_link_handles },
                )
                &&& begin_clear(p).0 matches PatchbayView::Native { state: after, capture: heard }
                    && after.session.route_link_handles.len() == 0 && heard == capture
                &&& begin_dispose(p) == (
                    p,
                    DisposeRunView::Native(NativeDisposeStepView::RestoreDefault),
                )
            },
        },
{
}

/// The legacy backend leaves the default and what Discord hears alone, and says
/// so where that was asked for; it has nothing to restore and nothing to follow.
pub proof fn the_legacy_backend_says_what_it_cannot_do(
    s: StateView,
    set: DefaultEvent,
    restore: RestoreEvent,
    choice: CaptureChoice,
    refused: Result<(), BackendErrorView>,
)
    ensures
        ({
            let p = PatchbayView::Legacy(s);
            &&& default_set(p, set) == (
                p,
                DefaultStepView::Done(
                    Err(
                        BackendErrorView::Message(
                            "setDefaultSinkToVirtual"@ + " is not supported by the legacy backend"@,
                        ),
                    ),
                ),
            )
            &&& default_restored(p, restore) == (p, DefaultStepView::Done(Ok(())))
            &&& capture_followed(p, CaptureEvent::Chosen { choice }, refused) == (
                p,
                CaptureStepView::Done(refused),
            )
            &&& capture_followed(p, CaptureEvent::GraphChanged, refused) == (
                p,
                CaptureStepView::Done(refused),
            )
        }),
{
}

/// On the native backend what Discord hears follows what was chosen for it, and
/// never touches the session; the default follows the session, and never touches
/// what Discord hears.
pub proof fn sharing_and_capturing_are_kept_apart(
    state: NativeView,
    capture: CaptureView,
    set: DefaultEvent,
    restore: RestoreEvent,
    event: CaptureEvent,
    refused: Result<(), BackendErrorView>,
)
    ensures
        ({
            let p = PatchbayView::Native { state, capture };
            let (chosen, step) = capture_followed(p, event, refused);
            &&& chosen == (PatchbayView::Native {
                state,
                capture: capture_transition(capture, event).0,
            })
            &&& step == capture_transition(capture, event).1
            &&& default_set(p, set).0 == (PatchbayView::Native {
                state: set_default_transition(state, set).0,
                capture,
            })
            &&& default_set(p, set).1 == set_default_transition(state, set).1
            &&& default_restored(p, restore).0 == (PatchbayView::Native {
                state: restore_transition(state, restore).0,
                capture,
            })
            &&& default_restored(p, restore).1 == restore_transition(state, restore).1
        }),
{
}

/// Whatever mute is asked for of a patchbay, a step that mutes a node sets that
/// mute; the legacy backend mutes nothing and says that it cannot.
pub proof fn a_patchbay_mutes_as_asked(
    p: AudioSharePatchbay,
    mute: bool,
    event: MicMuteEvent,
    step: MicMuteStep,
)
    requires
        call_ensures(AudioSharePatchbay::set_virtual_mic_mute, (&p, mute, event), step),
    ensures
        step matches MicMuteStep::Mute { mute: set, .. } ==> set == mute && p.state is Native,
        p.state is Legacy ==> (step matches MicMuteStep::Done(Err(e)) && e@
            == BackendErrorView::Message(
            "setVirtualMicMute"@ + " is not supported by the legacy backend"@,
        )),
{
    if let BackendState::Native { state, .. } = p.state {
        muting_sets_what_was_asked_for(state@, mute, event);
    }
}

/// Listing and looking for a screencast begin on the backend in use.
pub proof fn looks_begin_on_the_backend_in_use(
    p: AudioSharePatchbay,
    include_devices: bool,
    list: ListRun,
    hint: HintRun,
)
    requires
        call_ensures(AudioSharePatchbay::list_shareable_nodes, (&p, include_devices), list),
        call_ensures(AudioSharePatchbay::find_screencast_hint, (&p,), hint),
    ensures
        p.state is Native ==> list is Native && hint is Native,
        p.state is Legacy ==> (list matches ListRun::Legacy(step) && step is CheckPipewire) && hint
            is Legacy,
{
}

} // verus!

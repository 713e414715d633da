//! Downloading one track's lyrics as a sequence of decisions.
//!
//! A [`DownloadSession`] decides; its caller does the work. Every decision is
//! a [`DownloadStep`]: events to report, then one action — read the cancel
//! flag, ask provider `i`, sleep one second, write the lyrics file, or finish.
//! The caller performs the action and hands its result back to the session.
//!
//! The rules: the providers are asked in order; before each one the cancel
//! flag is read, and a cancelled download stops there. A provider that fails
//! with a request error or a rate limit is asked again, at most twice, after
//! waiting (the rate limit's own delay up to 60 s, otherwise 2 s then 4 s,
//! reading the cancel flag before every second); a cancel during that counts
//! as "not found". Of the results, a synchronized one beats a plain one, and
//! between equals the higher confidence wins; the first of equal results is
//! kept. An upgrade of plain lyrics only ever writes synchronized lyrics.
use vstd::prelude::*;
use crate::fs::FileStoreError;
use crate::model::{wants, DownloadMode, Track};
use crate::providers::{
    best_of, error_message, result_view, ProviderError, ProviderLyrics, ProviderName,
};

verus! {

/// Progress reported while a track is downloaded.
#[derive(Debug, Clone)]
pub enum DownloadEvent {
    Started { title: String },
    Searching { provider: ProviderName },
    ProviderFound { provider: ProviderName, synced: bool },
    ProviderNotFound { provider: ProviderName },
    Retrying { provider: ProviderName, attempt: u8, delay_seconds: u64 },
    ProviderFailed { provider: ProviderName, message: String },
    Written { provider: ProviderName, synced: bool },
    Skipped,
    Cancelled,
}

/// An event as the contracts see it: its strings by their characters.
pub enum EventView {
    Started(Seq<char>),
    Searching(ProviderName),
    ProviderFound(ProviderName, bool),
    ProviderNotFound(ProviderName),
    Retrying(ProviderName, u8, u64),
    ProviderFailed(ProviderName, Seq<char>),
    Written(ProviderName, bool),
    Skipped,
    Cancelled,
}

impl View for DownloadEvent {
    type V = EventView;

    open spec fn view(&self) -> EventView {
        match *self {
            DownloadEvent::Started { title } => EventView::Started(title@),
            DownloadEvent::Searching { provider } => EventView::Searching(provider),
            DownloadEvent::ProviderFound { provider, synced } => EventView::ProviderFound(
                provider,
                synced,
            ),
            DownloadEvent::ProviderNotFound { provider } => EventView::ProviderNotFound(provider),
            DownloadEvent::Retrying { provider, attempt, delay_seconds } => EventView::Retrying(
                provider,
                attempt,
                delay_seconds,
            ),
            DownloadEvent::ProviderFailed { provider, message } => EventView::ProviderFailed(
                provider,
                message@,
            ),
            DownloadEvent::Written { provider, synced } => EventView::Written(provider, synced),
            DownloadEvent::Skipped => EventView::Skipped,
            DownloadEvent::Cancelled => EventView::Cancelled,
        }
    }
}

pub open spec fn event_views(v: Seq<DownloadEvent>) -> Seq<EventView> {
    Seq::new(v.len(), |i: int| v[i]@)
}

/// How a download ended.
#[derive(Debug, Clone, Copy, PartialEq, Eq, Structural)]
pub enum DownloadOutcome {
    Downloaded { provider: ProviderName, synced: bool },
    Skipped,
    Cancelled,
    NotFound,
}

/// A download that could not write its lyrics.
#[derive(Debug)]
pub enum DownloadError {
    File(FileStoreError),
}

/// Where a session is.
#[derive(Debug, Clone, Copy, PartialEq, Eq, Structural)]
pub enum Phase {
    /// Not started.
    Ready,
    /// Waiting for the cancel flag before provider `index`.
    BeforeProvider { index: usize },
    /// Waiting for the cancel flag before asking provider `index`.
    BeforeAttempt { index: usize, attempt: u8 },
    /// Waiting for provider `index`'s answer.
    Searching { index: usize, attempt: u8 },
    /// Waiting for the cancel flag before one of the `remaining` seconds.
    BeforeSleep { index: usize, attempt: u8, remaining: u64 },
    /// Waiting for one of the `remaining` seconds to pass.
    Sleeping { index: usize, attempt: u8, remaining: u64 },
    /// Waiting for the lyrics file to be written.
    Writing { provider: ProviderName, synced: bool },
    /// Finished.
    Done,
}

/// What the caller does next.
#[derive(Debug)]
pub enum DownloadAction {
    /// Read the cancel flag and pass it to `on_cancel_flag`.
    CheckCancelled,
    /// Ask provider `index` and pass its answer to `on_search`.
    Search { index: usize },
    /// Sleep one second, then call `on_slept`.
    SleepOneSecond,
    /// Write `text` to the track's lyrics file and pass the result to `on_written`.
    Write { text: String },
    /// The download is over.
    Finish { outcome: Result<DownloadOutcome, DownloadError> },
}

/// A decision: events to report, in order, then an action to perform.
pub struct DownloadStep {
    pub events: Vec<DownloadEvent>,
    pub action: DownloadAction,
}

/// One track's download in progress.
pub struct DownloadSession {
    mode: DownloadMode,
    wanted: bool,
    title: String,
    providers: Vec<ProviderName>,
    phase: Phase,
    best: Option<ProviderLyrics>,
}

/// At most this many repeated requests per provider.
pub const MAX_RETRIES: u8 = 2;

/// Longest wait a rate limit can impose, in seconds.
pub const MAX_RETRY_DELAY_SECONDS: u64 = 60;

/// Whether `candidate` beats the result kept so far: synchronized beats
/// plain, then higher confidence wins.
pub open spec fn better(candidate: ProviderLyrics, current: Option<ProviderLyrics>) -> bool {
    match current {
        None => true,
        Some(c) => (candidate.synced is Some && c.synced is None) || ((candidate.synced is Some)
            == (c.synced is Some) && candidate.confidence > c.confidence),
    }
}

/// Preferring results is a strict order: no result beats itself, beating
/// is transitive, and a kept synchronized result only ever gives way to
/// another synchronized one.
pub proof fn preference_is_a_strict_order(a: ProviderLyrics, b: ProviderLyrics, c: ProviderLyrics)
    ensures
        !better(a, Some(a)),
        better(a, Some(b)) && better(b, Some(c)) ==> better(a, Some(c)),
        better(a, Some(b)) ==> !better(b, Some(a)),
        better(a, Some(b)) && b.synced is Some ==> a.synced is Some,
{
}

/// The seconds to wait before repeating a request after `error`, the repeat
/// being attempt number `attempt`; `None` when the error is not worth a retry.
pub open spec fn retry_delay(error: ProviderError, attempt: u8) -> Option<u64> {
    match error {
        ProviderError::RateLimited { retry_after_seconds: Some(s) } => Some(
            if s < MAX_RETRY_DELAY_SECONDS {
                s
            } else {
                MAX_RETRY_DELAY_SECONDS
            },
        ),
        ProviderError::RateLimited { retry_after_seconds: None } => Some(
            if attempt == 1 {
                2u64
            } else {
                4u64
            },
        ),
        ProviderError::Request(_) => Some(
            if attempt == 1 {
                2u64
            } else {
                4u64
            },
        ),
        _ => None,
    }
}

impl DownloadSession {
    pub closed spec fn spec_mode(&self) -> DownloadMode {
        self.mode
    }

    pub closed spec fn spec_wanted(&self) -> bool {
        self.wanted
    }

    pub closed spec fn spec_title(&self) -> Seq<char> {
        self.title@
    }

    pub closed spec fn spec_providers(&self) -> Seq<ProviderName> {
        self.providers@
    }

    pub closed spec fn spec_phase(&self) -> Phase {
        self.phase
    }

    pub closed spec fn spec_best(&self) -> Option<ProviderLyrics> {
        self.best
    }

    /// The session's invariant: indices name providers, at most two retries,
    /// a kept result has some text, and an upgrade only writes synced lyrics.
    pub open spec fn wf(&self) -> bool {
        &&& match self.spec_phase() {
            Phase::BeforeProvider { index } => index < self.spec_providers().len(),
            Phase::BeforeAttempt { index, attempt } => index < self.spec_providers().len()
                && attempt <= MAX_RETRIES,
            Phase::Searching { index, attempt } => index < self.spec_providers().len() && attempt
                <= MAX_RETRIES,
            Phase::BeforeSleep { index, attempt, remaining } => index
                < self.spec_providers().len() && attempt <= MAX_RETRIES && remaining > 0,
            Phase::Sleeping { index, attempt, remaining } => index < self.spec_providers().len()
                && attempt <= MAX_RETRIES && remaining > 0,
            Phase::Writing { provider, synced } => self.spec_best() matches Some(b) && b.provider
                == provider && synced == (b.synced is Some) && (self.spec_mode()
                == DownloadMode::UpgradePlain ==> synced),
            _ => true,
        }
        &&& match self.spec_best() {
            Some(b) => b.synced is Some || b.plain is Some,
            None => true,
        }
    }

    /// A session for `track` in `mode`, asking `providers` in order.
    pub fn new(track: &Track, mode: DownloadMode, providers: Vec<ProviderName>) -> (r: Self)
        ensures
            r.wf(),
            r.spec_mode() == mode,
            r.spec_wanted() == wants(track.status, mode),
            r.spec_title() == track.title@,
            r.spec_providers() == providers@,
            r.spec_phase() == Phase::Ready,
            r.spec_best() is None,
    {
        DownloadSession {
            mode,
            wanted: track.should_download(mode),
            title: track.title.clone(),
            providers,
            phase: Phase::Ready,
            best: None,
        }
    }

    /// The result kept so far.
    pub fn best(&self) -> (r: &Option<ProviderLyrics>)
        ensures
            *r == self.spec_best(),
    {
        &self.best
    }

    /// Where the session is.
    pub fn phase(&self) -> (r: Phase)
        ensures
            r == self.spec_phase(),
    {
        self.phase
    }

    /// Moves on to provider `index`, or concludes when every provider was asked.
    fn advance(&mut self, index: usize) -> (r: DownloadAction)
        requires
            old(self).wf(),
            index <= old(self).spec_providers().len(),
        ensures
            final(self).wf(),
            final(self).spec_mode() == old(self).spec_mode(),
            final(self).spec_wanted() == old(self).spec_wanted(),
            final(self).spec_title() == old(self).spec_title(),
            final(self).spec_providers() == old(self).spec_providers(),
            final(self).spec_best() == old(self).spec_best(),
            index < old(self).spec_providers().len() ==> final(self).spec_phase()
                == (Phase::BeforeProvider { index }) && r is CheckCancelled,
            index == old(self).spec_providers().len() ==> concluded(
                old(self).spec_mode(),
                old(self).spec_best(),
                final(self).spec_phase(),
                r,
            ),
    {
        if index < self.providers.len() {
            self.phase = Phase::BeforeProvider { index };
            return DownloadAction::CheckCancelled;
        }
        match &self.best {
            None => {
                self.phase = Phase::Done;
                DownloadAction::Finish { outcome: Ok(DownloadOutcome::NotFound) }
            },
            Some(b) => {
                let synced = b.synced.is_some();
                if self.mode == DownloadMode::UpgradePlain && !synced {
                    self.phase = Phase::Done;
                    return DownloadAction::Finish { outcome: Ok(DownloadOutcome::NotFound) };
                }
                let text = match b.best_text() {
                    Some(t) => t.to_owned(),
                    None => String::new(),
                };
                self.phase = Phase::Writing { provider: b.provider, synced };
                DownloadAction::Write { text }
            },
        }
    }

    /// Begins the download.
    pub fn start(&mut self) -> (r: DownloadStep)
        requires
            old(self).wf(),
            old(self).spec_phase() == Phase::Ready,
        ensures
            session_stepped(*old(self), *final(self)),
            final(self).wf(),
            kept(*old(self), *final(self)),
            final(self).spec_best() == old(self).spec_best(),
            !old(self).spec_wanted() ==> {
                &&& event_views(r.events@) == seq![
                    EventView::Started(old(self).spec_title()),
                    EventView::Skipped,
                ]
                &&& r.action matches DownloadAction::Finish { outcome: Ok(DownloadOutcome::Skipped) }
                &&& final(self).spec_phase() == Phase::Done
            },
            old(self).spec_wanted() ==> {
                &&& event_views(r.events@) == seq![EventView::Started(old(self).spec_title())]
                &&& if old(self).spec_providers().len() > 0 {
                    final(self).spec_phase() == (Phase::BeforeProvider { index: 0 })
                        && r.action is CheckCancelled
                } else {
                    concluded(old(self).spec_mode(), old(self).spec_best(), final(self).spec_phase(), r.action)
                }
            },
    {
        let mut events: Vec<DownloadEvent> = Vec::new();
        events.push(DownloadEvent::Started { title: self.title.clone() });
        if !self.wanted {
            events.push(DownloadEvent::Skipped);
            self.phase = Phase::Done;
            assert(event_views(events@) =~= seq![
                EventView::Started(old(self).spec_title()),
                EventView::Skipped,
            ]);
            return DownloadStep {
                events,
                action: DownloadAction::Finish { outcome: Ok(DownloadOutcome::Skipped) },
            };
        }
        assert(event_views(events@) =~= seq![EventView::Started(old(self).spec_title())]);
        let action = self.advance(0);
        DownloadStep { events, action }
    }

    /// Records what provider `index` came back with and moves on.
    fn record(&mut self, index: usize, result: Result<Option<ProviderLyrics>, ProviderError>) -> (r:
        DownloadStep)
        requires
            old(self).wf(),
            index < old(self).spec_providers().len(),
            !(old(self).spec_phase() is Writing),
        ensures
            final(self).wf(),
            kept(*old(self), *final(self)),
            recorded(*old(self), index, result, *final(self), r),
            search_rank(*final(self)) >= (MAX_RETRIES + 1) * (index + 1),
    {
        let provider = self.providers[index];
        let ghost before = *old(self);
        let events: Vec<DownloadEvent>;
        match result {
            Ok(Some(found)) => {
                let synced = found.is_synced();
                events = vec![DownloadEvent::ProviderFound { provider, synced }];
                assert(event_views(events@) =~= seq![EventView::ProviderFound(provider, synced)]);
                let better = match &self.best {
                    None => true,
                    Some(c) => {
                        let fs = found.synced.is_some();
                        let cs = c.synced.is_some();
                        (fs && !cs) || (fs == cs && found.confidence > c.confidence)
                    },
                };
                if better && (found.synced.is_some() || found.plain.is_some()) {
                    self.best = Some(found);
                }
            },
            Ok(None) => {
                events = vec![DownloadEvent::ProviderNotFound { provider }];
                assert(event_views(events@) =~= seq![EventView::ProviderNotFound(provider)]);
            },
            Err(ProviderError::NotFound) => {
                events = vec![DownloadEvent::ProviderNotFound { provider }];
                assert(event_views(events@) =~= seq![EventView::ProviderNotFound(provider)]);
            },
            Err(error) => {
                let message = error.message();
                events = vec![DownloadEvent::ProviderFailed { provider, message }];
                assert(event_views(events@) =~= seq![
                    EventView::ProviderFailed(provider, error_message(error)),
                ]);
            },
        }
        assert(index < self.providers.len());
        let action = self.advance(index + 1);
        proof {
            if index + 1 == self.providers@.len() {
                assert(self.spec_phase() is Writing || self.spec_phase() is Done);
            }
        }
        DownloadStep { events, action }
    }

    /// Takes the cancel flag the last `CheckCancelled` asked for.
    pub fn on_cancel_flag(&mut self, cancelled: bool) -> (r: DownloadStep)
        requires
            old(self).wf(),
            old(self).spec_phase() is BeforeProvider || old(self).spec_phase() is BeforeAttempt
                || old(self).spec_phase() is BeforeSleep,
        ensures
            session_stepped(*old(self), *final(self)),
            final(self).wf(),
            kept(*old(self), *final(self)),
            match old(self).spec_phase() {
                Phase::BeforeProvider { index } => if cancelled {
                    &&& event_views(r.events@) == seq![EventView::Cancelled]
                    &&& r.action matches DownloadAction::Finish {
                        outcome: Ok(DownloadOutcome::Cancelled),
                    }
                    &&& final(self).spec_phase() == Phase::Done
                    &&& final(self).spec_best() == old(self).spec_best()
                } else {
                    &&& event_views(r.events@) == seq![
                        EventView::Searching(old(self).spec_providers()[index as int]),
                    ]
                    &&& r.action is CheckCancelled
                    &&& final(self).spec_phase() == (Phase::BeforeAttempt { index, attempt: 0 })
                    &&& final(self).spec_best() == old(self).spec_best()
                },
                Phase::BeforeAttempt { index, attempt } => if cancelled {
                    recorded(*old(self), index, Ok(None), *final(self), r)
                } else {
                    &&& r.events@.len() == 0
                    &&& r.action matches DownloadAction::Search { index: i } && i == index
                    &&& final(self).spec_phase() == (Phase::Searching { index, attempt })
                    &&& final(self).spec_best() == old(self).spec_best()
                },
                Phase::BeforeSleep { index, attempt, remaining } => if cancelled {
                    recorded(*old(self), index, Ok(None), *final(self), r)
                } else {
                    &&& r.events@.len() == 0
                    &&& r.action is SleepOneSecond
                    &&& final(self).spec_phase() == (Phase::Sleeping { index, attempt, remaining })
                    &&& final(self).spec_best() == old(self).spec_best()
                },
                _ => false,
            },
    {
        match self.phase {
            Phase::BeforeProvider { index } => {
                if cancelled {
                    self.phase = Phase::Done;
                    let events = vec![DownloadEvent::Cancelled];
                    assert(event_views(events@) =~= seq![EventView::Cancelled]);
                    return DownloadStep {
                        events,
                        action: DownloadAction::Finish { outcome: Ok(DownloadOutcome::Cancelled) },
                    };
                }
                let provider = self.providers[index];
                self.phase = Phase::BeforeAttempt { index, attempt: 0 };
                let events = vec![DownloadEvent::Searching { provider }];
                assert(event_views(events@) =~= seq![EventView::Searching(provider)]);
                DownloadStep { events, action: DownloadAction::CheckCancelled }
            },
            Phase::BeforeAttempt { index, attempt } => {
                if cancelled {
                    return self.record(index, Ok(None));
                }
                self.phase = Phase::Searching { index, attempt };
                DownloadStep { events: Vec::new(), action: DownloadAction::Search { index } }
            },
            Phase::BeforeSleep { index, attempt, remaining } => {
                if cancelled {
                    return self.record(index, Ok(None));
                }
                self.phase = Phase::Sleeping { index, attempt, remaining };
                DownloadStep { events: Vec::new(), action: DownloadAction::SleepOneSecond }
            },
            _ => {
                assert(false);
                DownloadStep { events: Vec::new(), action: DownloadAction::CheckCancelled }
            },
        }
    }

    /// Takes provider `index`'s answer to the last `Search`.
    pub fn on_search(&mut self, result: Result<Option<ProviderLyrics>, ProviderError>) -> (r:
        DownloadStep)
        requires
            old(self).wf(),
            old(self).spec_phase() is Searching,
        ensures
            session_stepped(*old(self), *final(self)),
            final(self).wf(),
            kept(*old(self), *final(self)),
            searched(*old(self), result, *final(self), r),
    {
        let (index, attempt) = match self.phase {
            Phase::Searching { index, attempt } => (index, attempt),
            _ => {
                assert(false);
                (0, 0)
            },
        };
        let retry = match &result {
            Err(ProviderError::RateLimited { retry_after_seconds: Some(s) }) => Some(
                if *s < MAX_RETRY_DELAY_SECONDS {
                    *s
                } else {
                    MAX_RETRY_DELAY_SECONDS
                },
            ),
            Err(ProviderError::RateLimited { retry_after_seconds: None }) => Some(
                if attempt == 0 {
                    2u64
                } else {
                    4u64
                },
            ),
            Err(ProviderError::Request(_)) => Some(
                if attempt == 0 {
                    2u64
                } else {
                    4u64
                },
            ),
            _ => None,
        };
        if attempt < MAX_RETRIES {
            if let Some(delay) = retry {
                let next = attempt + 1;
                let provider = self.providers[index];
                let events = vec![
                    DownloadEvent::Retrying { provider, attempt: next, delay_seconds: delay },
                ];
                assert(event_views(events@) =~= seq![
                    EventView::Retrying(provider, next, delay),
                ]);
                if delay > 0 {
                    self.phase = Phase::BeforeSleep { index, attempt: next, remaining: delay };
                } else {
                    self.phase = Phase::BeforeAttempt { index, attempt: next };
                }
                return DownloadStep { events, action: DownloadAction::CheckCancelled };
            }
        }
        self.record(index, result)
    }

    /// One of the waiting seconds has passed.
    pub fn on_slept(&mut self) -> (r: DownloadStep)
        requires
            old(self).wf(),
            old(self).spec_phase() is Sleeping,
        ensures
            session_stepped(*old(self), *final(self)),
            final(self).wf(),
            kept(*old(self), *final(self)),
            final(self).spec_best() == old(self).spec_best(),
            r.events@.len() == 0,
            r.action is CheckCancelled,
            match old(self).spec_phase() {
                Phase::Sleeping { index, attempt, remaining } => final(self).spec_phase() == if remaining > 1 {
                    Phase::BeforeSleep { index, attempt, remaining: (remaining - 1) as u64 }
                } else {
                    Phase::BeforeAttempt { index, attempt }
                },
                _ => false,
            },
    {
        match self.phase {
            Phase::Sleeping { index, attempt, remaining } => {
                if remaining > 1 {
                    self.phase = Phase::BeforeSleep { index, attempt, remaining: remaining - 1 };
                } else {
                    self.phase = Phase::BeforeAttempt { index, attempt };
                }
            },
            _ => {
                assert(false);
            },
        }
        DownloadStep { events: Vec::new(), action: DownloadAction::CheckCancelled }
    }

    /// Takes the result of the last `Write`.
    pub fn on_written(&mut self, result: Result<(), FileStoreError>) -> (r: DownloadStep)
        requires
            old(self).wf(),
            old(self).spec_phase() is Writing,
        ensures
            session_stepped(*old(self), *final(self)),
            final(self).wf(),
            kept(*old(self), *final(self)),
            final(self).spec_best() == old(self).spec_best(),
            final(self).spec_phase() == Phase::Done,
            match old(self).spec_phase() {
                Phase::Writing { provider, synced } => match result {
                    Ok(()) => {
                        &&& event_views(r.events@) == seq![EventView::Written(provider, synced)]
                        &&& r.action matches DownloadAction::Finish { outcome: Ok(o) } && o == (
                        DownloadOutcome::Downloaded { provider, synced })
                    },
                    Err(_) => {
                        &&& r.events@.len() == 0
                        &&& r.action matches DownloadAction::Finish { outcome: Err(_) }
                    },
                },
                _ => false,
            },
    {
        let (provider, synced) = match self.phase {
            Phase::Writing { provider, synced } => (provider, synced),
            _ => {
                assert(false);
                (ProviderName::Lrclib, false)
            },
        };
        self.phase = Phase::Done;
        match result {
            Ok(()) => {
                let events = vec![DownloadEvent::Written { provider, synced }];
                assert(event_views(events@) =~= seq![EventView::Written(provider, synced)]);
                DownloadStep {
                    events,
                    action: DownloadAction::Finish {
                        outcome: Ok(DownloadOutcome::Downloaded { provider, synced }),
                    },
                }
            },
            Err(e) => DownloadStep {
                events: Vec::new(),
                action: DownloadAction::Finish { outcome: Err(DownloadError::File(e)) },
            },
        }
    }
}

/// The parts of a session that never change.
pub open spec fn kept(before: DownloadSession, after: DownloadSession) -> bool {
    &&& after.spec_mode() == before.spec_mode()
    &&& after.spec_wanted() == before.spec_wanted()
    &&& after.spec_title() == before.spec_title()
    &&& after.spec_providers() == before.spec_providers()
}

/// What `on_search` does with provider's answer `result`: from `before`
/// to `after`, taking step `r`.
pub open spec fn searched(
    before: DownloadSession,
    result: Result<Option<ProviderLyrics>, ProviderError>,
    after: DownloadSession,
    r: DownloadStep,
) -> bool {
    match before.spec_phase() {
        Phase::Searching { index, attempt } => match result {
            Err(e) => if attempt < MAX_RETRIES && retry_delay(e, (attempt + 1) as u8) is Some {
                let next = (attempt + 1) as u8;
                let delay = retry_delay(e, next)->0;
                &&& event_views(r.events@) == seq![
                    EventView::Retrying(before.spec_providers()[index as int], next, delay),
                ]
                &&& r.action is CheckCancelled
                &&& after.spec_best() == before.spec_best()
                &&& after.spec_phase() == if delay > 0 {
                    Phase::BeforeSleep { index, attempt: next, remaining: delay }
                } else {
                    Phase::BeforeAttempt { index, attempt: next }
                }
            } else {
                recorded(before, index, result, after, r)
            },
            Ok(_) => recorded(before, index, result, after, r),
        },
        _ => false,
    }
}

/// A provider's answer always moves the session past the attempt it
/// answered: on to the next attempt at the same provider (only after a
/// failure worth repeating: a request error or a rate limit, as
/// `retry_delay` says; at most `MAX_RETRIES` repeats in all), on to the next
/// provider, or to the end. So no provider is asked more than
/// `MAX_RETRIES + 1` times.
pub proof fn answers_move_the_search_forward(
    before: DownloadSession,
    result: Result<Option<ProviderLyrics>, ProviderError>,
    after: DownloadSession,
    r: DownloadStep,
)
    requires
        before.wf(),
        before.spec_phase() is Searching,
        searched(before, result, after, r),
    ensures
        match before.spec_phase() {
            Phase::Searching { index, attempt } => match after.spec_phase() {
                Phase::BeforeAttempt { index: i, attempt: a } => i == index && a == attempt + 1 && a <= MAX_RETRIES
                    && (result matches Err(e) && retry_delay(e, a) is Some),
                Phase::BeforeSleep { index: i, attempt: a, .. } => i == index && a == attempt + 1 && a
                    <= MAX_RETRIES && (result matches Err(e) && retry_delay(e, a) is Some),
                Phase::BeforeProvider { index: i } => i == (index + 1) as usize && index + 1 < before.spec_providers().len(),
                Phase::Writing { .. } => true,
                Phase::Done => true,
                _ => false,
            },
            _ => false,
        },
{
    if let Phase::Searching { index, attempt } = before.spec_phase() {
        let retried = match result {
            Err(e) => attempt < MAX_RETRIES && retry_delay(e, (attempt + 1) as u8) is Some,
            Ok(_) => false,
        };
        if !retried {
            assert(recorded(before, index, result, after, r));
            if index + 1 < before.spec_providers().len() {
                assert(after.spec_phase() == (Phase::BeforeProvider { index: (index + 1) as usize }));
            }
            if index + 1 >= before.spec_providers().len() {
                let best = after.spec_best();
                assert(concluded(before.spec_mode(), best, after.spec_phase(), r.action));
                match best {
                    None => {},
                    Some(b) => {},
                }
            }
        }
    }
}

/// Where a session stands in its round of searches, as a number no step
/// lowers: attempt `attempt` at provider `index` stands at
/// `(MAX_RETRIES + 1) * index + attempt`, a provider about to be asked at its
/// first attempt, and the end past every provider.
pub open spec fn search_rank(s: DownloadSession) -> int {
    let per = MAX_RETRIES + 1;
    match s.spec_phase() {
        Phase::Ready => -1,
        Phase::BeforeProvider { index } => per * index,
        Phase::BeforeAttempt { index, attempt } => per * index + attempt,
        Phase::Searching { index, attempt } => per * index + attempt,
        Phase::BeforeSleep { index, attempt, .. } => per * index + attempt,
        Phase::Sleeping { index, attempt, .. } => per * index + attempt,
        Phase::Writing { .. } => per * s.spec_providers().len(),
        Phase::Done => per * s.spec_providers().len(),
    }
}

/// One step of a session, by any of its methods: the track and providers
/// are kept, the invariant holds, the session never moves back in its round
/// of searches, and a provider's answer moves it forward.
pub open spec fn session_stepped(before: DownloadSession, after: DownloadSession) -> bool {
    &&& kept(before, after)
    &&& after.wf()
    &&& search_rank(after) >= search_rank(before)
    &&& before.spec_phase() is Searching ==> search_rank(after) > search_rank(before)
}

/// Over a whole download, a provider is asked again only at a later
/// attempt, and attempts run from 0 to `MAX_RETRIES`: no provider is asked
/// more than `MAX_RETRIES + 1` times. (Each search is the step taken from a
/// `Searching` phase; a later search at the same provider has a higher
/// attempt.)
pub proof fn each_provider_is_asked_at_most_three_times(states: Seq<DownloadSession>, first: int, second: int)
    requires
        states.len() >= 1,
        states[0].wf(),
        forall|k: int| 0 <= k < states.len() - 1 ==> #[trigger] session_stepped(states[k], states[k + 1]),
        0 <= first < second < states.len(),
        states[first].spec_phase() is Searching,
        states[second].spec_phase() is Searching,
        states[first].spec_phase()->Searching_index == states[second].spec_phase()->Searching_index,
    ensures
        states[first].spec_phase()->Searching_attempt < states[second].spec_phase()->Searching_attempt,
        states[second].spec_phase()->Searching_attempt <= MAX_RETRIES,
{
    lemma_ranks_rise(states, first, second);
    lemma_wf_along(states, second);
}

proof fn lemma_wf_along(states: Seq<DownloadSession>, k: int)
    requires
        states.len() >= 1,
        states[0].wf(),
        forall|i: int| 0 <= i < states.len() - 1 ==> #[trigger] session_stepped(states[i], states[i + 1]),
        0 <= k < states.len(),
    ensures
        states[k].wf(),
{
    if k > 0 {
        let i = k - 1;
        assert(session_stepped(states[i], states[i + 1]));
    }
}

/// From a search on, the rank only rises.
proof fn lemma_ranks_rise(states: Seq<DownloadSession>, first: int, k: int)
    requires
        forall|i: int| 0 <= i < states.len() - 1 ==> #[trigger] session_stepped(states[i], states[i + 1]),
        0 <= first < k < states.len(),
        states[first].spec_phase() is Searching,
    ensures
        search_rank(states[k]) > search_rank(states[first]),
    decreases k - first,
{
    let i = k - 1;
    assert(session_stepped(states[i], states[i + 1]));
    if k - 1 > first {
        lemma_ranks_rise(states, first, k - 1);
    }
}

/// Which answer a download keeps: a synchronized answer replaces a kept
/// plain one and never gives way to a plain one; between two answers that
/// are both synchronized or both plain, the one with the higher confidence
/// is kept (the earlier one on a tie); the first answer with any text is
/// kept when nothing was; and an answer without text is never kept.
pub proof fn the_better_answer_is_kept(
    before: DownloadSession,
    index: usize,
    found: ProviderLyrics,
    after: DownloadSession,
    step: DownloadStep,
)
    requires
        recorded(before, index, Ok(Some(found)), after, step),
    ensures
        found.synced is None && found.plain is None ==> after.spec_best() == before.spec_best(),
        found.synced is Some || found.plain is Some ==> match before.spec_best() {
            None => after.spec_best() == Some(found),
            Some(c) => {
                &&& found.synced is Some && c.synced is None ==> after.spec_best() == Some(found)
                &&& found.synced is None && c.synced is Some ==> after.spec_best() == before.spec_best()
                &&& (found.synced is Some) == (c.synced is Some) && found.confidence > c.confidence
                    ==> after.spec_best() == Some(found)
                &&& (found.synced is Some) == (c.synced is Some) && found.confidence <= c.confidence
                    ==> after.spec_best() == before.spec_best()
            },
        },
{
}

/// Every provider has been asked: the decision taken on the kept result.
pub open spec fn concluded(
    mode: DownloadMode,
    best: Option<ProviderLyrics>,
    phase: Phase,
    action: DownloadAction,
) -> bool {
    match best {
        None => phase == Phase::Done && action matches DownloadAction::Finish {
            outcome: Ok(DownloadOutcome::NotFound),
        },
        Some(b) => if mode == DownloadMode::UpgradePlain && b.synced is None {
            phase == Phase::Done && action matches DownloadAction::Finish {
                outcome: Ok(DownloadOutcome::NotFound),
            }
        } else {
            &&& phase == (Phase::Writing { provider: b.provider, synced: b.synced is Some })
            &&& action matches DownloadAction::Write { text } && Some(text@) == best_of(b)
        },
    }
}

/// Provider `index` answered `result`: the event reporting it, the result
/// kept, and the move to the next provider.
pub open spec fn recorded(
    before: DownloadSession,
    index: usize,
    result: Result<Option<ProviderLyrics>, ProviderError>,
    after: DownloadSession,
    step: DownloadStep,
) -> bool {
    let provider = before.spec_providers()[index as int];
    let event = match result {
        Ok(Some(found)) => EventView::ProviderFound(provider, found.synced is Some),
        Ok(None) => EventView::ProviderNotFound(provider),
        Err(ProviderError::NotFound) => EventView::ProviderNotFound(provider),
        Err(e) => EventView::ProviderFailed(provider, error_message(e)),
    };
    let best = match result {
        Ok(Some(found)) => if better(found, before.spec_best()) && (found.synced is Some
            || found.plain is Some) {
            Some(found)
        } else {
            before.spec_best()
        },
        _ => before.spec_best(),
    };
    &&& event_views(step.events@) == seq![event]
    &&& after.spec_best() == best
    &&& if index + 1 < before.spec_providers().len() {
        after.spec_phase() == (Phase::BeforeProvider { index: (index + 1) as usize })
            && step.action is CheckCancelled
    } else {
        concluded(before.spec_mode(), best, after.spec_phase(), step.action)
    }
}

} // verus!

//! The job controller: starting workers, cancelling them, and turning
//! their decoded output into consumer-facing events.
//!
//! The controller owns the registry.  Starting a job validates its
//! input before any process exists, registers the spawned handle under
//! a fresh random id, and hands the id back at once.  The reader loop
//! around each worker feeds every output line through [`SidecarManager::handle_line`]
//! and the final exit status through [`SidecarManager::handle_exit`];
//! both return the event to deliver, if any, and the removed job when
//! the line or exit ended the job's life.  Cancellation removes the job
//! and hands its process handle back for the kill.

use vstd::prelude::*;

use crate::models::AppError;
use crate::models::ModelSize;
use crate::models::Segment;
use crate::models::SegmentModel;
use crate::models::model_size_str;
use crate::models::spec_model_size_str;
use crate::protocol::Decoded;
use crate::protocol::DecodedModel;
use crate::protocol::MessageModel;
use crate::protocol::SidecarMessage;
use crate::protocol::decode_line;
use crate::protocol::enc_dec;
use crate::protocol::enc_int;
use crate::protocol::i32_to_string;
use crate::protocol::spec_decode;
use crate::protocol::u128_to_string;
use crate::registry::JobModel;
use crate::registry::JobRegistry;
use crate::registry::TranscriptionJob;

verus! {

// ------------------------------------------------------------------
// Event payloads
// ------------------------------------------------------------------

/// Progress report for a running job.
#[derive(Clone, PartialEq, Debug)]
pub struct TranscriptionProgressPayload {
    pub job_id: u128,
    pub percent: u32,
    pub status: String,
}

/// Mathematical value of a progress payload.
#[verifier::ext_equal]
pub struct ProgressPayloadModel {
    pub job_id: u128,
    pub percent: u32,
    pub status: Seq<char>,
}

impl View for TranscriptionProgressPayload {
    type V = ProgressPayloadModel;

    open spec fn view(&self) -> ProgressPayloadModel {
        ProgressPayloadModel { job_id: self.job_id, percent: self.percent, status: self.status@ }
    }
}

/// A newly transcribed segment of a running job.
#[derive(Clone, PartialEq, Debug)]
pub struct TranscriptionSegmentPayload {
    pub job_id: u128,
    pub segment: Segment,
}

/// Mathematical value of a segment payload.
#[verifier::ext_equal]
pub struct SegmentPayloadModel {
    pub job_id: u128,
    pub segment: SegmentModel,
}

impl View for TranscriptionSegmentPayload {
    type V = SegmentPayloadModel;

    open spec fn view(&self) -> SegmentPayloadModel {
        SegmentPayloadModel { job_id: self.job_id, segment: self.segment@ }
    }
}

/// Completion notice: the job finished cleanly.
#[derive(Clone, PartialEq, Debug)]
pub struct TranscriptionCompletePayload {
    pub job_id: u128,
    pub language: String,
    pub duration_ms: u64,
}

/// Mathematical value of a completion payload.
#[verifier::ext_equal]
pub struct CompletePayloadModel {
    pub job_id: u128,
    pub language: Seq<char>,
    pub duration_ms: u64,
}

impl View for TranscriptionCompletePayload {
    type V = CompletePayloadModel;

    open spec fn view(&self) -> CompletePayloadModel {
        CompletePayloadModel {
            job_id: self.job_id,
            language: self.language@,
            duration_ms: self.duration_ms,
        }
    }
}

/// Failure notice: the job ended with an error.
#[derive(Clone, PartialEq, Debug)]
pub struct TranscriptionErrorPayload {
    pub job_id: u128,
    pub message: String,
}

/// Mathematical value of an error payload.
#[verifier::ext_equal]
pub struct ErrorPayloadModel {
    pub job_id: u128,
    pub message: Seq<char>,
}

impl View for TranscriptionErrorPayload {
    type V = ErrorPayloadModel;

    open spec fn view(&self) -> ErrorPayloadModel {
        ErrorPayloadModel { job_id: self.job_id, message: self.message@ }
    }
}

/// One event delivered to the consumer, in arrival order per job.
#[derive(Clone, PartialEq, Debug)]
pub enum Event {
    Progress(TranscriptionProgressPayload),
    Segment(TranscriptionSegmentPayload),
    Complete(TranscriptionCompletePayload),
    Error(TranscriptionErrorPayload),
}

/// Mathematical value of an event.
pub enum EventModel {
    Progress(ProgressPayloadModel),
    Segment(SegmentPayloadModel),
    Complete(CompletePayloadModel),
    Error(ErrorPayloadModel),
}

impl View for Event {
    type V = EventModel;

    open spec fn view(&self) -> EventModel {
        match self {
            Event::Progress(p) => EventModel::Progress(p@),
            Event::Segment(p) => EventModel::Segment(p@),
            Event::Complete(p) => EventModel::Complete(p@),
            Event::Error(p) => EventModel::Error(p@),
        }
    }
}

/// The event a decoded message produces for a job.
pub open spec fn event_for(job_id: u128, m: MessageModel) -> EventModel {
    match m {
        MessageModel::Progress { percent, status } => EventModel::Progress(
            ProgressPayloadModel { job_id, percent, status },
        ),
        MessageModel::Segment { data } => EventModel::Segment(
            SegmentPayloadModel { job_id, segment: data },
        ),
        MessageModel::Complete { language, duration_ms } => EventModel::Complete(
            CompletePayloadModel { job_id, language, duration_ms },
        ),
        MessageModel::Error { message } => EventModel::Error(
            ErrorPayloadModel { job_id, message },
        ),
    }
}

/// Whether a message ends its job's active life.
pub open spec fn is_terminal(m: MessageModel) -> bool {
    m is Complete || m is Error
}

/// The synthesized failure text for an abnormal exit.
pub open spec fn exit_message(code: int) -> Seq<char> {
    "exit code "@ + enc_int(code)
}

// ------------------------------------------------------------------
// The manager
// ------------------------------------------------------------------

/// Manages active transcription jobs and their worker processes.
pub struct SidecarManager<H> {
    jobs: JobRegistry<H>,
}

impl<H> SidecarManager<H> {
    /// The registry invariant: at most one entry per id.
    pub closed spec fn wf(&self) -> bool {
        self.jobs.wf()
    }

    /// Whether `id` is currently registered.
    pub closed spec fn active(&self, id: u128) -> bool {
        self.jobs.contains_id(id)
    }

    /// The number of registered jobs.
    pub closed spec fn count(&self) -> nat {
        self.jobs.job_count()
    }

    /// The job registered under `id`.
    pub closed spec fn job(&self, id: u128) -> JobModel<H> {
        self.jobs.job_model(id)
    }

    /// The set of ids of registered jobs.
    pub closed spec fn active_set(&self) -> Set<u128> {
        self.jobs.active_ids()
    }

    /// A manager with no jobs.
    pub fn new() -> (r: SidecarManager<H>)
        ensures
            r.wf(),
            r.count() == 0,
            forall|id: u128| !r.active(id),
    {
        SidecarManager { jobs: JobRegistry::new() }
    }

    /// Whether the job is still registered — still able to receive
    /// events.  A point-in-time query: the job may finish right after.
    pub fn is_job_active(&self, job_id: u128) -> (r: bool)
        ensures
            r == self.active(job_id),
    {
        self.jobs.exists_id(job_id)
    }

    /// How many jobs are registered right now.
    pub fn active_job_count(&self) -> (r: usize)
        ensures
            r == self.count(),
    {
        self.jobs.count()
    }

    /// The registered count equals the number of ids for which
    /// [`SidecarManager::is_job_active`] answers true.
    pub proof fn lemma_count_matches_active_set(&self)
        requires
            self.wf(),
        ensures
            self.active_set().finite(),
            self.active_set().len() == self.count(),
    {
        self.jobs.lemma_count_matches_active();
    }

    /// Register a job under a given id: succeeds exactly when the id
    /// is not yet taken, and otherwise hands the process handle back
    /// untouched.
    pub fn register_job(&mut self, id: u128, file_path: String, model_size: ModelSize, child: H) -> (r:
        Result<(), H>)
        requires
            old(self).wf(),
        ensures
            final(self).wf(),
            r is Ok <==> !old(self).active(id),
            (match r {
                Ok(()) => {
                    &&& final(self).active(id)
                    &&& final(self).job(id) == (JobModel {
                        file_path: file_path@,
                        model_size: model_size,
                        child: child,
                    })
                    &&& final(self).count() == old(self).count() + 1
                    &&& forall|x: u128|
                        x != id ==> final(self).active(x) == old(self).active(x)
                    &&& forall|x: u128|
                        x != id && old(self).active(x) ==> final(self).job(x) == old(self).job(x)
                },
                Err(c) => c == child && *final(self) == *old(self),
            }),
    {
        if self.jobs.exists_id(id) {
            Err(child)
        } else {
            self.jobs.insert(TranscriptionJob { id, file_path, model_size, child });
            Ok(())
        }
    }

    /// Register a freshly spawned worker under a new random id and
    /// return the id.  Whatever id the random source yields, it is
    /// registered only if fresh; a collision with a registered id —
    /// practically never, and impossible while the registry is empty —
    /// gives the handle back unregistered.
    pub fn start_transcription(&mut self, file_path: String, model_size: ModelSize, child: H) -> (r:
        Result<u128, H>)
        requires
            old(self).wf(),
        ensures
            final(self).wf(),
            r is Err ==> old(self).count() > 0,
            (match r {
                Ok(id) => {
                    &&& !old(self).active(id)
                    &&& final(self).active(id)
                    &&& final(self).job(id) == (JobModel {
                        file_path: file_path@,
                        model_size: model_size,
                        child: child,
                    })
                    &&& final(self).count() == old(self).count() + 1
                    &&& forall|x: u128|
                        x != id ==> final(self).active(x) == old(self).active(x)
                    &&& forall|x: u128|
                        x != id && old(self).active(x) ==> final(self).job(x) == old(self).job(x)
                },
                Err(c) => c == child && *final(self) == *old(self),
            }),
    {
        let id = generate_job_id();
        match self.register_job(id, file_path, model_size, child) {
            Ok(()) => Ok(id),
            Err(c) => {
                proof {
                    old(self).jobs.lemma_contains_implies_nonempty(id);
                }
                Err(c)
            },
        }
    }

    /// Cancel a job: remove it and hand its process handle back so the
    /// caller can kill the worker.  A job already gone — finished or
    /// cancelled before — is a harmless miss, reported as an error
    /// value, never a panic.
    pub fn cancel_transcription(&mut self, job_id: u128) -> (r: Result<
        TranscriptionJob<H>,
        AppError,
    >)
        requires
            old(self).wf(),
        ensures
            final(self).wf(),
            !final(self).active(job_id),
            r is Ok <==> old(self).active(job_id),
            (match r {
                Ok(job) => job.id == job_id && job@ == old(self).job(job_id) && final(self).count()
                    == old(self).count() - 1,
                Err(e) => *final(self) == *old(self) && (e matches AppError::SidecarError(msg)
                    && msg@ == "Job not found: "@ + enc_dec(job_id as int)),
            }),
            forall|x: u128| x != job_id ==> final(self).active(x) == old(self).active(x),
            forall|x: u128|
                x != job_id && old(self).active(x) ==> final(self).job(x) == old(self).job(x),
    {
        match self.jobs.remove(job_id) {
            Some(job) => Ok(job),
            None => {
                let mut msg = String::from_str("Job not found: ");
                msg.append(u128_to_string(job_id).as_str());
                Err(AppError::SidecarError(msg))
            },
        }
    }
}

/// The events one job's whole output stream produces: each line in
/// arrival order, then the exit status.  `active` says whether the job
/// is registered when the stream starts; a terminal message ends its
/// active life, and lines after that — or for a job cancelled before
/// the stream started — produce nothing.  A nonzero exit status of a
/// job still active at the end synthesizes one failure event.
pub open spec fn stream_events(
    active: bool,
    job_id: u128,
    lines: Seq<Seq<char>>,
    exit_code: Option<i32>,
) -> Seq<EventModel>
    decreases lines.len(),
{
    if lines.len() == 0 {
        match exit_code {
            Option::Some(c) => {
                if active && c != 0 {
                    seq![
                        EventModel::Error(
                            ErrorPayloadModel { job_id, message: exit_message(c as int) },
                        ),
                    ]
                } else {
                    Seq::empty()
                }
            },
            Option::None => Seq::empty(),
        }
    } else {
        let rest = lines.subrange(1, lines.len() as int);
        match spec_decode(lines[0]) {
            DecodedModel::Message(m) => {
                if active {
                    seq![event_for(job_id, m)] + stream_events(
                        !is_terminal(m),
                        job_id,
                        rest,
                        exit_code,
                    )
                } else {
                    stream_events(false, job_id, rest, exit_code)
                }
            },
            _ => stream_events(active, job_id, rest, exit_code),
        }
    }
}

impl<H> SidecarManager<H> {
    /// Process one line of worker output for `job_id`.
    ///
    /// Blank lines produce nothing, and a malformed line is discarded
    /// without ending anything: decoding resumes with the next line.
    /// A decoded message is forwarded as exactly one event while the
    /// job is registered; a terminal message — completion or an
    /// explicit error — also removes the job, whose entry, process
    /// handle included, is handed back for cleanup.  Lines of a job no
    /// longer registered are dropped.
    pub fn handle_line(&mut self, job_id: u128, line: &str) -> (r: (
        Option<Event>,
        Option<TranscriptionJob<H>>,
    ))
        requires
            old(self).wf(),
        ensures
            final(self).wf(),
            forall|x: u128| x != job_id ==> final(self).active(x) == old(self).active(x),
            forall|x: u128|
                x != job_id && old(self).active(x) ==> final(self).job(x) == old(self).job(x),
            (match spec_decode(line@) {
                DecodedModel::Message(m) => {
                    if old(self).active(job_id) {
                        &&& (r.0 matches Some(e) && e@ == event_for(job_id, m))
                        &&& if is_terminal(m) {
                            &&& (r.1 matches Some(job) && job.id == job_id && job@ == old(
                                self,
                            ).job(job_id))
                            &&& !final(self).active(job_id)
                            &&& final(self).count() == old(self).count() - 1
                        } else {
                            r.1 is None && *final(self) == *old(self)
                        }
                    } else {
                        r.0 is None && r.1 is None && *final(self) == *old(self)
                    }
                },
                _ => r.0 is None && r.1 is None && *final(self) == *old(self),
            }),
    {
        let d = decode_line(line);
        match d {
            Decoded::Blank => (None, None),
            Decoded::Malformed => (None, None),
            Decoded::Message(m) => {
                if !self.jobs.exists_id(job_id) {
                    (None, None)
                } else {
                    match m {
                        SidecarMessage::Progress { percent, status } => (
                            Some(
                                Event::Progress(
                                    TranscriptionProgressPayload { job_id, percent, status },
                                ),
                            ),
                            None,
                        ),
                        SidecarMessage::Segment { data } => (
                            Some(
                                Event::Segment(
                                    TranscriptionSegmentPayload { job_id, segment: data },
                                ),
                            ),
                            None,
                        ),
                        SidecarMessage::Complete { language, duration_ms } => {
                            let job = self.jobs.remove(job_id);
                            (
                                Some(
                                    Event::Complete(
                                        TranscriptionCompletePayload {
                                            job_id,
                                            language,
                                            duration_ms,
                                        },
                                    ),
                                ),
                                job,
                            )
                        },
                        SidecarMessage::Error { message } => {
                            let job = self.jobs.remove(job_id);
                            (
                                Some(
                                    Event::Error(TranscriptionErrorPayload { job_id, message }),
                                ),
                                job,
                            )
                        },
                    }
                }
            },
        }
    }

    /// Process the worker's exit for `job_id`.
    ///
    /// The job is removed if it is still registered; it no longer is
    /// when a terminal message or a cancellation got there first, and
    /// this removal is then a harmless no-op.  A nonzero exit status of
    /// a job that was still registered — one that never sent a terminal
    /// message — synthesizes exactly one failure event carrying the
    /// exit code.  Status zero, a kill without status, or a job already
    /// gone synthesize nothing.
    pub fn handle_exit(&mut self, job_id: u128, exit_code: Option<i32>) -> (r: (
        Option<Event>,
        Option<TranscriptionJob<H>>,
    ))
        requires
            old(self).wf(),
        ensures
            final(self).wf(),
            !final(self).active(job_id),
            forall|x: u128| x != job_id ==> final(self).active(x) == old(self).active(x),
            forall|x: u128|
                x != job_id && old(self).active(x) ==> final(self).job(x) == old(self).job(x),
            (if old(self).active(job_id) {
                &&& (r.1 matches Some(job) && job.id == job_id && job@ == old(self).job(job_id))
                &&& final(self).count() == old(self).count() - 1
                &&& (match exit_code {
                    Some(c) => {
                        if c != 0 {
                            r.0 matches Some(e) && e@ == EventModel::Error(
                                ErrorPayloadModel { job_id, message: exit_message(c as int) },
                            )
                        } else {
                            r.0 is None
                        }
                    },
                    None => r.0 is None,
                })
            } else {
                r.0 is None && r.1 is None && *final(self) == *old(self)
            }),
    {
        match self.jobs.remove(job_id) {
            None => (None, None),
            Some(job) => {
                match exit_code {
                    Some(c) => {
                        if c != 0 {
                            let mut msg = String::from_str("exit code ");
                            msg.append(i32_to_string(c).as_str());
                            (
                                Some(
                                    Event::Error(
                                        TranscriptionErrorPayload { job_id, message: msg },
                                    ),
                                ),
                                Some(job),
                            )
                        } else {
                            (None, Some(job))
                        }
                    },
                    None => (None, Some(job)),
                }
            },
        }
    }

    /// Run a whole reader loop: feed every output line of `job_id` in
    /// arrival order, then the exit status.  The events come back in
    /// exactly the order [`stream_events`] gives them — one per decoded
    /// message while the job lives, in line order, plus at most one
    /// synthesized failure.  Afterwards the job is gone from the
    /// registry, and its entry is returned when this loop is the one
    /// that removed it.
    pub fn process_output(&mut self, job_id: u128, lines: &Vec<String>, exit_code: Option<i32>) -> (r: (
        Vec<Event>,
        Option<TranscriptionJob<H>>,
    ))
        requires
            old(self).wf(),
        ensures
            final(self).wf(),
            !final(self).active(job_id),
            forall|x: u128| x != job_id ==> final(self).active(x) == old(self).active(x),
            forall|x: u128|
                x != job_id && old(self).active(x) ==> final(self).job(x) == old(self).job(x),
            r.0@.map_values(|e: Event| e@) == stream_events(
                old(self).active(job_id),
                job_id,
                lines@.map_values(|l: String| l@),
                exit_code,
            ),
            r.1 is Some <==> old(self).active(job_id),
            (r.1 matches Some(job) ==> job.id == job_id && job@ == old(self).job(job_id)),
    {
        let ghost m0 = *old(self);
        let ghost lmodels = lines@.map_values(|l: String| l@);
        let ghost act0 = m0.active(job_id);
        let mut events: Vec<Event> = Vec::new();
        let mut removed: Option<TranscriptionJob<H>> = None;
        let mut k: usize = 0;
        proof {
            assert(lmodels.subrange(0, lmodels.len() as int) =~= lmodels);
            let f = |e: Event| e@;
            assert(events@.map_values(f) =~= Seq::<EventModel>::empty());
            assert(Seq::<EventModel>::empty() + stream_events(act0, job_id, lmodels, exit_code)
                =~= stream_events(act0, job_id, lmodels, exit_code));
        }
        while k < lines.len()
            invariant
                self.wf(),
                k <= lines@.len(),
                lmodels == lines@.map_values(|l: String| l@),
                lmodels.len() == lines@.len(),
                act0 == m0.active(job_id),
                forall|x: u128| x != job_id ==> self.active(x) == m0.active(x),
                forall|x: u128| x != job_id && m0.active(x) ==> self.job(x) == m0.job(x),
                (match removed {
                    Some(job) => m0.active(job_id) && !self.active(job_id) && job.id == job_id
                        && job@ == m0.job(job_id),
                    None => self.active(job_id) == m0.active(job_id) && (m0.active(job_id)
                        ==> self.job(job_id) == m0.job(job_id)),
                }),
                stream_events(act0, job_id, lmodels, exit_code) == events@.map_values(|e: Event| e@)
                    + stream_events(
                    self.active(job_id),
                    job_id,
                    lmodels.subrange(k as int, lmodels.len() as int),
                    exit_code,
                ),
            decreases lines@.len() - k,
        {
            let ghost pre_self = *self;
            let ghost pre_events = events@;
            let ghost suffix = lmodels.subrange(k as int, lmodels.len() as int);
            proof {
                assert(suffix[0] == lmodels[k as int]);
                assert(lmodels[k as int] == lines@[k as int]@);
                assert(suffix.subrange(1, suffix.len() as int) =~= lmodels.subrange(
                    k + 1,
                    lmodels.len() as int,
                ));
            }
            let line = &lines[k];
            let (ev, rem) = self.handle_line(job_id, line.as_str());
            match ev {
                Some(e) => {
                    events.push(e);
                },
                None => {},
            }
            match rem {
                Some(j) => {
                    removed = Some(j);
                },
                None => {},
            }
            proof {
                let f = |e: Event| e@;
                if pre_events == events@ {
                    assert(events@.map_values(f) == pre_events.map_values(f));
                } else {
                    let e = events@[events@.len() - 1];
                    assert(events@ =~= pre_events.push(e));
                    assert(events@.map_values(f) =~= pre_events.map_values(f).push(f(e)));
                }
                assert(stream_events(pre_self.active(job_id), job_id, suffix, exit_code)
                    == (match spec_decode(suffix[0]) {
                    DecodedModel::Message(m) => {
                        if pre_self.active(job_id) {
                            seq![event_for(job_id, m)] + stream_events(
                                !is_terminal(m),
                                job_id,
                                suffix.subrange(1, suffix.len() as int),
                                exit_code,
                            )
                        } else {
                            stream_events(
                                false,
                                job_id,
                                suffix.subrange(1, suffix.len() as int),
                                exit_code,
                            )
                        }
                    },
                    _ => stream_events(
                        pre_self.active(job_id),
                        job_id,
                        suffix.subrange(1, suffix.len() as int),
                        exit_code,
                    ),
                }));
                match spec_decode(suffix[0]) {
                    DecodedModel::Message(m) => {
                        if pre_self.active(job_id) {
                            assert(events@.map_values(f) =~= pre_events.map_values(f) + seq![
                                event_for(job_id, m),
                            ]);
                            assert(pre_events.map_values(f) + (seq![event_for(job_id, m)]
                                + stream_events(
                                !is_terminal(m),
                                job_id,
                                suffix.subrange(1, suffix.len() as int),
                                exit_code,
                            )) =~= events@.map_values(f) + stream_events(
                                !is_terminal(m),
                                job_id,
                                suffix.subrange(1, suffix.len() as int),
                                exit_code,
                            ));
                            assert(self.active(job_id) == !is_terminal(m));
                        } else {
                            assert(events@ == pre_events);
                        }
                    },
                    _ => {
                        assert(events@ == pre_events);
                    },
                }
            }
            k += 1;
        }
        proof {
            assert(lmodels.subrange(k as int, lmodels.len() as int) =~= Seq::<Seq<char>>::empty());
        }
        let ghost pre_exit = *self;
        let ghost pre_events = events@;
        let (ev2, rem2) = self.handle_exit(job_id, exit_code);
        match ev2 {
            Some(e) => {
                events.push(e);
            },
            None => {},
        }
        let out_removed = if removed.is_some() {
            removed
        } else {
            rem2
        };
        proof {
            let f = |e: Event| e@;
            if pre_events == events@ {
                assert(events@.map_values(f) == pre_events.map_values(f));
            } else {
                let e = events@[events@.len() - 1];
                assert(events@ =~= pre_events.push(e));
                assert(events@.map_values(f) =~= pre_events.map_values(f).push(f(e)));
            }
            assert(events@.map_values(f) =~= pre_events.map_values(f) + stream_events(
                pre_exit.active(job_id),
                job_id,
                Seq::<Seq<char>>::empty(),
                exit_code,
            ));
            assert(events@.map_values(f) =~= stream_events(act0, job_id, lmodels, exit_code));
        }
        (events, out_removed)
    }

    /// Cancelling twice in a row: the first call may find the job and
    /// take its handle; the second never finds it, reports the miss as
    /// an error value, and changes nothing.  No handle is ever handed
    /// out twice.
    pub fn cancel_twice(&mut self, job_id: u128) -> (r: (
        Result<TranscriptionJob<H>, AppError>,
        Result<TranscriptionJob<H>, AppError>,
    ))
        requires
            old(self).wf(),
        ensures
            final(self).wf(),
            !final(self).active(job_id),
            r.0 is Ok <==> old(self).active(job_id),
            r.1 is Err,
            forall|x: u128| x != job_id ==> final(self).active(x) == old(self).active(x),
    {
        let first = self.cancel_transcription(job_id);
        let second = self.cancel_transcription(job_id);
        (first, second)
    }
}

impl<H> Default for SidecarManager<H> {
    /// A manager with no jobs.
    fn default() -> (r: SidecarManager<H>)
        ensures
            r.wf(),
            r.count() == 0,
            forall|id: u128| !r.active(id),
    {
        SidecarManager::new()
    }
}

/// A fresh 128-bit random job identifier.
///
/// Relies on `uuid::Uuid::new_v4`, a version-4 UUID drawn from the
/// process's random source, returned as its 128-bit value.  The
/// construction masks in the version nibble (4) and the variant bits
/// (binary 10); everything else is random, so nothing more is
/// promised — distinctness from registered ids is checked at
/// registration.
#[verifier::external_body]
pub fn generate_job_id() -> (r: u128)
    ensures
        (r >> 76) & 0xf == 4,
        (r >> 62) & 0x3 == 2,
{
    uuid::Uuid::new_v4().as_u128()
}

/// Name of the worker executable the host invokes: the transcription
/// engine shipped beside the application.
pub fn worker_binary_name() -> (r: &'static str)
    ensures
        r@ == "whisper-engine"@,
{
    "whisper-engine"
}

/// Build the worker's argument list, validating the input first: no
/// process may be spawned for a missing input file.  The caller reports
/// whether the input exists; the decision and the argument shape are
/// made here, and the program they are for is
/// [`worker_binary_name`].
pub fn prepare_start(file_path: &String, model_size: ModelSize, input_exists: bool) -> (r: Result<
    Vec<String>,
    AppError,
>)
    ensures
        (match r {
            Ok(args) => input_exists && args@.len() == 3 && args@[0]@ == file_path@ && args@[1]@
                == "--model"@ && args@[2]@ == spec_model_size_str(model_size),
            Err(e) => !input_exists && (e matches AppError::FileNotFound(p) && p@ == file_path@),
        }),
{
    if !input_exists {
        Err(AppError::FileNotFound(file_path.clone()))
    } else {
        let mut args: Vec<String> = Vec::new();
        args.push(file_path.clone());
        args.push(String::from_str("--model"));
        args.push(String::from_str(model_size_str(model_size)));
        Ok(args)
    }
}

} // verus!

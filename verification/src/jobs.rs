//! The queue of jobs: each job has an id, a cancellation token while it
//! runs, and ends with exactly one final event.
use std::collections::HashMap;
use vstd::prelude::*;

use crate::cancel::CancelToken;
use crate::engine_trait::ArchiveEngine;
use crate::error::{EngineError, ErrorView};
use crate::entry::opt_view;
use crate::ops::{strings_view, CreateOptions};

verus! {

pub type JobId = u64;

/// What a job does.
#[derive(Debug, Clone)]
pub enum JobKind {
    Extract {
        archive: String,
        dest: String,
        entries: Option<Vec<String>>,
        password: Option<String>,
    },
    Create { archive: String, inputs: Vec<String>, options: CreateOptions },
    Test { archive: String, password: Option<String> },
}

/// A job as submitted: a description for the user and what to do.
#[derive(Debug, Clone)]
pub struct JobSpec {
    pub descricao: String,
    pub kind: JobKind,
}

/// What a running job reports.
#[derive(Debug)]
pub enum JobEvent {
    Started(JobId),
    Progress(JobId, u8),
    Done(JobId),
    Failed(JobId, EngineError),
    Cancelled(JobId),
}

/// The mathematical value of a [`JobEvent`].
pub enum JobEventView {
    Started(JobId),
    Progress(JobId, u8),
    Done(JobId),
    Failed(JobId, ErrorView),
    Cancelled(JobId),
}

impl View for JobEvent {
    type V = JobEventView;

    open spec fn view(&self) -> JobEventView {
        match self {
            JobEvent::Started(i) => JobEventView::Started(*i),
            JobEvent::Progress(i, p) => JobEventView::Progress(*i, *p),
            JobEvent::Done(i) => JobEventView::Done(*i),
            JobEvent::Failed(i, e) => JobEventView::Failed(*i, e@),
            JobEvent::Cancelled(i) => JobEventView::Cancelled(*i),
        }
    }
}

/// The final event of a job: `Done` when it succeeded, `Cancelled` when
/// it stopped because it was cancelled, `Failed` with the error otherwise.
pub open spec fn spec_final_event(id: JobId, r: Result<(), ErrorView>) -> JobEventView {
    match r {
        Ok(()) => JobEventView::Done(id),
        Err(ErrorView::Cancelado) => JobEventView::Cancelled(id),
        Err(e) => JobEventView::Failed(id, e),
    }
}

pub open spec fn unit_result_view(r: Result<(), EngineError>) -> Result<(), ErrorView> {
    match r {
        Ok(()) => Ok(()),
        Err(e) => Err(e@),
    }
}

/// The final event of the job `id` for its result.
pub fn evento_final(id: JobId, resultado: Result<(), EngineError>) -> (r: JobEvent)
    ensures
        r@ == spec_final_event(id, unit_result_view(resultado)),
{
    match resultado {
        Ok(()) => JobEvent::Done(id),
        Err(EngineError::Cancelado) => JobEvent::Cancelled(id),
        Err(e) => JobEvent::Failed(id, e),
    }
}

fn opt_str(o: &Option<String>) -> (r: Option<&str>)
    ensures
        match (o, r) {
            (Some(s), Some(t)) => t@ == s@,
            (None, None) => true,
            _ => false,
        },
{
    match o {
        Some(s) => Some(s.as_str()),
        None => None,
    }
}

/// Runs a job's work on an engine: the extraction, creation or test that
/// it describes, with the job's own archive, destination, selection,
/// inputs, options and password, reporting to the job's progress callback
/// and watching the job's cancellation token; gives what that operation
/// gives.
pub fn executar<E: ArchiveEngine, F: FnMut(u8)>(
    engine: &E,
    kind: &JobKind,
    on_progress: &mut F,
    cancel: &CancelToken,
) -> (r: Result<(), EngineError>)
    ensures
        match kind {
            JobKind::Extract { archive, dest, entries, password } => engine.extraiu(
                archive@,
                dest@,
                match entries {
                    Some(v) => Some(strings_view(v@)),
                    None => None,
                },
                opt_view(*password),
                *old(on_progress),
                *cancel,
                r,
            ),
            JobKind::Create { archive, inputs, options } => engine.criou(
                archive@,
                strings_view(inputs@),
                *options,
                *old(on_progress),
                *cancel,
                r,
            ),
            JobKind::Test { archive, password } => engine.testou(
                archive@,
                opt_view(*password),
                *old(on_progress),
                *cancel,
                r,
            ),
        },
{
    match kind {
        JobKind::Extract { archive, dest, entries, password } => {
            let sel: Option<&[String]> = match entries {
                Some(v) => Some(v.as_slice()),
                None => None,
            };
            engine.extract(archive.as_str(), dest.as_str(), sel, opt_str(password), on_progress, cancel)
        },
        JobKind::Create { archive, inputs, options } => {
            engine.create(archive.as_str(), inputs.as_slice(), options, on_progress, cancel)
        },
        JobKind::Test { archive, password } => {
            engine.test(archive.as_str(), opt_str(password), on_progress, cancel)
        },
    }
}

/// The bookkeeping of the queue: the next id, and the cancellation token
/// of each job that has not ended.
pub struct JobQueue {
    next_id: u64,
    cancels: HashMap<JobId, CancelToken>,
    /// Whether the ids have wrapped around past `u64::MAX`.
    volta: Ghost<bool>,
    /// The ids given out so far, in order.
    dados: Ghost<Seq<JobId>>,
}

impl JobQueue {
    /// Until the ids wrap around, every running job has an id below the
    /// next one.
    #[verifier::type_invariant]
    spec fn ids_abaixo(self) -> bool {
        self.volta@ || (self.next_id == self.dados@.len() + 1 && (forall|i: int|
            0 <= i < self.dados@.len() ==> #[trigger] self.dados@[i] == i + 1) && forall|id: JobId|
            #[trigger] self.cancels@.dom().contains(id) ==> id < self.next_id)
    }

    /// The ids given out so far, in the order they were given.
    pub closed spec fn dados(&self) -> Seq<JobId> {
        self.dados@
    }

    /// The ids have not wrapped around yet: each id given so far was given
    /// once.
    pub closed spec fn sem_volta(&self) -> bool {
        !self.volta@
    }

    /// The id that the next job will get.
    pub closed spec fn next(&self) -> u64 {
        self.next_id
    }

    /// The jobs that have not ended.
    pub closed spec fn running(&self) -> Set<JobId> {
        self.cancels@.dom()
    }

    /// An empty queue; the first job gets id 1.
    pub fn new() -> (q: JobQueue)
        ensures
            q.next() == 1,
            q.running() == Set::<JobId>::empty(),
            q.sem_volta(),
            q.dados() == Seq::<JobId>::empty(),
    {
        JobQueue {
            next_id: 1,
            cancels: HashMap::new(),
            volta: Ghost(false),
            dados: Ghost(Seq::empty()),
        }
    }

    /// Registers a new job: it gets the next id and a fresh token. Until
    /// the ids wrap around, a fresh queue gives 1, 2, 3, ... in order, so
    /// no id is given twice and none is that of a running job.
    pub fn registrar(&mut self) -> (r: (JobId, CancelToken))
        ensures
            r.0 == old(self).next(),
            final(self).next() == (old(self).next() + 1) as u64 || (old(self).next() == u64::MAX
                && final(self).next() == 0),
            final(self).running() == old(self).running().insert(r.0),
            old(self).sem_volta() ==> !old(self).running().contains(r.0),
            final(self).sem_volta() == (old(self).sem_volta() && old(self).next() != u64::MAX),
            final(self).dados() == old(self).dados().push(r.0),
            final(self).sem_volta() ==> forall|i: int|
                0 <= i < final(self).dados().len() ==> #[trigger] final(self).dados()[i] == i + 1,
            final(self).sem_volta() ==> forall|i: int, j: int|
                0 <= i < j < final(self).dados().len() ==> #[trigger] final(self).dados()[i]
                    != #[trigger] final(self).dados()[j],
    {
        broadcast use vstd::std_specs::hash::group_hash_axioms;

        proof {
            use_type_invariant(&*self);
        }
        let id = self.next_id;
        let mut m: HashMap<JobId, CancelToken> = HashMap::new();
        std::mem::swap(&mut m, &mut self.cancels);
        let tok = CancelToken::new();
        m.insert(id, tok.clone());
        let proximo: u64 = if id == u64::MAX {
            0
        } else {
            id + 1
        };
        let ghost v: bool = self.volta@ || id == u64::MAX;
        let ghost d: Seq<JobId> = self.dados@.push(id);
        let volta: Ghost<bool> = Ghost(v);
        let dados: Ghost<Seq<JobId>> = Ghost(d);
        *self = JobQueue { next_id: proximo, cancels: m, volta, dados };
        (id, tok)
    }

    /// Cancels the job `id` if it is running; nothing otherwise.
    pub fn cancel(&self, id: JobId) -> (r: bool)
        ensures
            r == self.running().contains(id),
    {
        broadcast use vstd::std_specs::hash::group_hash_axioms;

        match self.cancels.get(&id) {
            Some(tok) => {
                tok.cancel();
                true
            },
            None => false,
        }
    }

    /// Ends the job `id` with its result: it is no longer running, and
    /// its final event is returned.
    pub fn concluir(&mut self, id: JobId, resultado: Result<(), EngineError>) -> (r: JobEvent)
        ensures
            final(self).running() == old(self).running().remove(id),
            final(self).next() == old(self).next(),
            r@ == spec_final_event(id, unit_result_view(resultado)),
    {
        broadcast use vstd::std_specs::hash::group_hash_axioms;

        proof {
            use_type_invariant(&*self);
        }
        let mut m: HashMap<JobId, CancelToken> = HashMap::new();
        std::mem::swap(&mut m, &mut self.cancels);
        m.remove(&id);
        std::mem::swap(&mut m, &mut self.cancels);
        evento_final(id, resultado)
    }
}

} // verus!

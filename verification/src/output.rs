//! Download events, the submission sink, and the download worker's queues.

use vstd::prelude::*;
use crate::downloader::{spec_video_filename, video_filename};

verus! {

/// Identifies one submitted download.
pub type DownloadId = u64;

/// What happened to a download.
#[derive(Debug, Clone, PartialEq, Eq)]
pub enum DownloadEventKind {
    /// The name of the file the video is saved under is known.
    FileNameResolved(String),
    /// The video was saved.
    Completed,
    /// The download failed, with a description of the error.
    Failed(String),
}

/// An event about the download with identifier `id`.
#[derive(Debug, Clone, PartialEq, Eq)]
pub struct DownloadEvent {
    pub id: DownloadId,
    pub kind: DownloadEventKind,
}

/// The mathematical value of a `DownloadEventKind`.
pub enum EventKindView {
    FileNameResolved(Seq<char>),
    Completed,
    Failed(Seq<char>),
}

/// The mathematical value of a `DownloadEvent`.
pub struct EventView {
    pub id: DownloadId,
    pub kind: EventKindView,
}

impl View for DownloadEventKind {
    type V = EventKindView;

    open spec fn view(&self) -> EventKindView {
        match self {
            DownloadEventKind::FileNameResolved(name) => EventKindView::FileNameResolved(name@),
            DownloadEventKind::Completed => EventKindView::Completed,
            DownloadEventKind::Failed(error) => EventKindView::Failed(error@),
        }
    }
}

impl View for DownloadEvent {
    type V = EventView;

    open spec fn view(&self) -> EventView {
        EventView { id: self.id, kind: self.kind@ }
    }
}

/// The values of a sequence of events.
pub open spec fn events_view(events: Seq<DownloadEvent>) -> Seq<EventView> {
    events.map_values(|e: DownloadEvent| e@)
}

/// Receives the submissions of the interface and reports what became of them.
///
/// The worker of the application extracts the video link of each submitted pin and
/// downloads it into the chosen directory.
///
/// A sink may say, through `received` and `drained`, what taking a submission and
/// handing out events make of it; a verified sink must then prove that its
/// methods do that. A sink that says nothing promises nothing.
pub trait Output {
    /// `after` is the sink `before` once it has taken the submission of `pin_url` and
    /// `directory_path` under identifier `id`.
    open spec fn received(
        before: &Self,
        after: &Self,
        pin_url: Seq<char>,
        directory_path: Seq<char>,
        id: DownloadId,
    ) -> bool {
        true
    }

    /// `after` is the sink `before` once it has handed out `events`.
    open spec fn drained(before: &Self, after: &Self, events: Seq<EventView>) -> bool {
        true
    }

    /// Takes a submitted pin link and destination directory, under identifier `id`.
    fn handle_submission(&mut self, pin_url: &str, directory_path: &str, id: DownloadId)
        ensures
            Self::received(old(self), final(self), pin_url@, directory_path@, id),
    ;

    /// Hands out the events that have arrived since the last call.
    fn drain_events(&mut self) -> (events: Vec<DownloadEvent>)
        ensures
            Self::drained(old(self), final(self), events_view(events@)),
    ;
}

/// A submitted download that is waiting to be carried out.
#[derive(Debug, Clone, PartialEq, Eq)]
pub struct DownloadJob {
    pub id: DownloadId,
    pub pin_url: String,
    pub directory_path: String,
}

/// The mathematical value of a `DownloadJob`.
pub struct JobView {
    pub id: DownloadId,
    pub pin_url: Seq<char>,
    pub directory_path: Seq<char>,
}

impl View for DownloadJob {
    type V = JobView;

    open spec fn view(&self) -> JobView {
        JobView { id: self.id, pin_url: self.pin_url@, directory_path: self.directory_path@ }
    }
}

/// The values of a sequence of jobs.
pub open spec fn jobs_view(jobs: Seq<DownloadJob>) -> Seq<JobView> {
    jobs.map_values(|j: DownloadJob| j@)
}

/// The download a job makes once its video link is known: the link, and the directory
/// and file name it is saved under.
#[derive(Debug, Clone, PartialEq, Eq)]
pub struct DownloadPlan {
    pub id: DownloadId,
    pub download_url: String,
    pub directory_path: String,
    pub filename: String,
}

/// What a job does once link extraction has ended. When it failed (`extracted` holds
/// the error's description): one `Failed` event and no download. When it found a link:
/// one `FileNameResolved` event with the name the video is saved under
/// (`spec_video_filename`), and the download of that link into the job's directory
/// under that name.
pub fn plan_download(job: &DownloadJob, extracted: Result<String, String>) -> (res: (
    DownloadEvent,
    Option<DownloadPlan>,
))
    ensures
        match extracted {
            Err(text) => {
                &&& res.0@ == (EventView { id: job.id, kind: EventKindView::Failed(text@) })
                &&& res.1 is None
            },
            Ok(url) => {
                &&& res.0@ == (EventView {
                    id: job.id,
                    kind: EventKindView::FileNameResolved(spec_video_filename(url@)),
                })
                &&& res.1 matches Some(plan) && {
                    &&& plan.id == job.id
                    &&& plan.download_url@ == url@
                    &&& plan.directory_path@ == job.directory_path@
                    &&& plan.filename@ == spec_video_filename(url@)
                }
            },
        },
{
    match extracted {
        Err(text) => (DownloadEvent { id: job.id, kind: DownloadEventKind::Failed(text) }, None),
        Ok(url) => {
            let filename = video_filename(url.as_str());
            let event = DownloadEvent {
                id: job.id,
                kind: DownloadEventKind::FileNameResolved(filename.clone()),
            };
            let plan = DownloadPlan {
                id: job.id,
                download_url: url,
                directory_path: job.directory_path.clone(),
                filename,
            };
            (event, Some(plan))
        },
    }
}

/// The last event of a job that downloaded: `Completed` when the download succeeded,
/// else `Failed` with the error's description.
pub fn finish_download(plan: &DownloadPlan, outcome: Result<(), String>) -> (event: DownloadEvent)
    ensures
        event@ == (EventView {
            id: plan.id,
            kind: match outcome {
                Ok(()) => EventKindView::Completed,
                Err(text) => EventKindView::Failed(text@),
            },
        }),
{
    match outcome {
        Ok(()) => DownloadEvent { id: plan.id, kind: DownloadEventKind::Completed },
        Err(text) => DownloadEvent { id: plan.id, kind: DownloadEventKind::Failed(text) },
    }
}

/// The download worker's bookkeeping: the submitted jobs not yet carried out, and the
/// events reported by the jobs that have not yet been drained, each in arrival order.
#[derive(Debug)]
pub struct DownloadWorker {
    jobs: Vec<DownloadJob>,
    events: Vec<DownloadEvent>,
}

impl DownloadWorker {
    /// The jobs waiting to be carried out, oldest first.
    pub closed spec fn pending_jobs(&self) -> Seq<JobView> {
        jobs_view(self.jobs@)
    }

    /// The events waiting to be drained, oldest first.
    pub closed spec fn pending_events(&self) -> Seq<EventView> {
        events_view(self.events@)
    }

    /// Records an event reported by a job.
    pub fn push_event(&mut self, event: DownloadEvent)
        ensures
            final(self).pending_events() == old(self).pending_events().push(event@),
            final(self).pending_jobs() == old(self).pending_jobs(),
    {
        let ghost e = event@;
        self.events.push(event);
        assert(final(self).pending_events() =~= old(self).pending_events().push(e));
    }

    /// Hands out the jobs waiting to be carried out, oldest first, and forgets them.
    pub fn take_jobs(&mut self) -> (jobs: Vec<DownloadJob>)
        ensures
            jobs_view(jobs@) == old(self).pending_jobs(),
            final(self).pending_jobs() == Seq::<JobView>::empty(),
            final(self).pending_events() == old(self).pending_events(),
    {
        let mut jobs = Vec::new();
        std::mem::swap(&mut jobs, &mut self.jobs);
        assert(final(self).pending_jobs() =~= Seq::<JobView>::empty());
        jobs
    }
}

impl Default for DownloadWorker {
    /// A worker with no job and no event.
    fn default() -> (worker: Self)
        ensures
            worker.pending_jobs() == Seq::<JobView>::empty(),
            worker.pending_events() == Seq::<EventView>::empty(),
    {
        let worker = DownloadWorker { jobs: Vec::new(), events: Vec::new() };
        assert(worker.pending_jobs() =~= Seq::<JobView>::empty());
        assert(worker.pending_events() =~= Seq::<EventView>::empty());
        worker
    }
}

impl Output for DownloadWorker {
    /// Taking a submission queues it as a job, after the waiting ones.
    open spec fn received(
        before: &Self,
        after: &Self,
        pin_url: Seq<char>,
        directory_path: Seq<char>,
        id: DownloadId,
    ) -> bool {
        &&& after.pending_jobs() == before.pending_jobs().push(
            JobView { id, pin_url, directory_path },
        )
        &&& after.pending_events() == before.pending_events()
    }

    /// Handing out events hands out all waiting ones, oldest first, and forgets them.
    open spec fn drained(before: &Self, after: &Self, events: Seq<EventView>) -> bool {
        &&& events == before.pending_events()
        &&& after.pending_events() == Seq::<EventView>::empty()
        &&& after.pending_jobs() == before.pending_jobs()
    }

    /// Queues the submission as a job.
    fn handle_submission(&mut self, pin_url: &str, directory_path: &str, id: DownloadId)
        ensures
            final(self).pending_jobs() == old(self).pending_jobs().push(
                JobView { id, pin_url: pin_url@, directory_path: directory_path@ },
            ),
            final(self).pending_events() == old(self).pending_events(),
    {
        let job = DownloadJob {
            id,
            pin_url: pin_url.to_owned(),
            directory_path: directory_path.to_owned(),
        };
        let ghost j = job@;
        self.jobs.push(job);
        assert(final(self).pending_jobs() =~= old(self).pending_jobs().push(j));
    }

    /// Hands out the reported events, oldest first, and forgets them.
    fn drain_events(&mut self) -> (events: Vec<DownloadEvent>)
        ensures
            events_view(events@) == old(self).pending_events(),
            final(self).pending_events() == Seq::<EventView>::empty(),
            final(self).pending_jobs() == old(self).pending_jobs(),
    {
        let mut events = Vec::new();
        std::mem::swap(&mut events, &mut self.events);
        assert(final(self).pending_events() =~= Seq::<EventView>::empty());
        events
    }
}

} // verus!

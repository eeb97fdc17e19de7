//! The shared queue of jobs: an unbounded channel that any worker may send
//! into and receive from.
//!
//! What a receive gives depends on what the other workers did, so nothing is
//! stated of it here. A job comes out of the queue as it was put in, so it
//! still is what its type says: its path is terminated.

use crate::path::Path;
use vstd::prelude::*;

verus! {

/// `crossbeam_channel::Sender`, the sending end of a channel. Nothing is
/// known of what is inside.
#[verifier::external_type_specification]
#[verifier::external_body]
#[verifier::reject_recursive_types(T)]
pub struct ExSender<T>(crossbeam_channel::Sender<T>);

/// `crossbeam_channel::Receiver`, the receiving end of a channel. Nothing
/// is known of what is inside.
#[verifier::external_type_specification]
#[verifier::external_body]
#[verifier::reject_recursive_types(T)]
pub struct ExReceiver<T>(crossbeam_channel::Receiver<T>);

/// What a job asks for.
pub enum JobView {
    GetDirEntries { path: Seq<u8> },
    Shutdown,
}

/// A unit of work: a directory to expand, or the order to stop.
#[derive(Debug)]
pub struct Job {
    path: Option<Path>,
}

impl View for Job {
    type V = JobView;

    closed spec fn view(&self) -> JobView {
        match self.path {
            Some(p) => JobView::GetDirEntries { path: p@ },
            None => JobView::Shutdown,
        }
    }
}

impl Job {
    /// The path of a job is terminated.
    #[verifier::type_invariant]
    spec fn inv(self) -> bool {
        self.path matches Some(p) ==> p.wf()
    }

    /// The job to expand the directory `path`.
    pub fn get_dir_entries(path: Path) -> (job: Job)
        requires
            path.wf(),
        ensures
            job@ == (JobView::GetDirEntries { path: path@ }),
    {
        Job { path: Some(path) }
    }

    /// The order to stop.
    pub fn shutdown() -> (job: Job)
        ensures
            job@ == JobView::Shutdown,
    {
        Job { path: None }
    }

    /// The directory to expand, or nothing for the order to stop.
    pub fn into_path(self) -> (path: Option<Path>)
        ensures
            match path {
                Some(p) => p.wf() && self@ == (JobView::GetDirEntries { path: p@ }),
                None => self@ == JobView::Shutdown,
            },
    {
        proof {
            use_type_invariant(&self);
        }
        self.path
    }
}

/// What a receive that does not wait found.
#[derive(Debug)]
pub(crate) enum Polled {
    Ready(Job),
    Empty,
    Disconnected,
}

/// Calls `Sender::send`, which puts `job` into the queue, and tells whether
/// it answered `Ok`. It answers `Err` once every receiver is gone. Which of
/// the two comes is not stated.
#[verifier::external_body]
pub(crate) fn send_job(send: &crossbeam_channel::Sender<Job>, job: Job) -> (sent: bool) {
    send.send(job).is_ok()
}

/// Calls `Receiver::try_recv`, which takes a job from the queue without
/// waiting, and hands on what it answered: the job, that the queue is
/// empty, or that it is empty and every sender is gone. Which of the three
/// comes is not stated.
#[verifier::external_body]
pub(crate) fn try_recv_job(recv: &crossbeam_channel::Receiver<Job>) -> (polled: Polled) {
    match recv.try_recv() {
        Ok(job) => Polled::Ready(job),
        Err(crossbeam_channel::TryRecvError::Empty) => Polled::Empty,
        Err(crossbeam_channel::TryRecvError::Disconnected) => Polled::Disconnected,
    }
}

/// Calls `Receiver::recv`, which waits for a job, and hands on the job it
/// answered. It answers `Err`, handed on as `None`, once the queue is empty
/// and every sender is gone. Which of the two comes is not stated.
#[verifier::external_body]
pub(crate) fn recv_job(recv: &crossbeam_channel::Receiver<Job>) -> (job: Option<Job>) {
    recv.recv().ok()
}

/// Calls `Receiver::is_empty`, which tells whether the queue held no job at
/// the moment of the call. What it answers is not stated.
#[verifier::external_body]
pub(crate) fn queue_is_empty(recv: &crossbeam_channel::Receiver<Job>) -> (empty: bool) {
    recv.is_empty()
}

} // verus!

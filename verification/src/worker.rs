//! One worker of the pool: what it does with the entries of a directory, how
//! it waits for its next job, and how it decides that no work is left.

use crate::directory::OpenError;
use crate::dirent::{
    batch_ok, entries, getdents64, read_is_valid, read_ok, Dirent64, DirentRecord, DirentType,
};
use crate::path::{joined_bytes, lemma_push_truncate_restores, no_nul, pushed, Path};
use crate::queue::{queue_is_empty, recv_job, send_job, try_recv_job, Job, JobView, Polled};
use std::sync::atomic::AtomicU32;
use std::sync::atomic::Ordering;
use std::sync::Arc;
use vstd::prelude::*;

verus! {

/// The byte `.`, of which the names of a directory's own entry and of its
/// parent's are made.
pub const DOT: u8 = 0x2e;

/// `name` is `.` or `..`.
pub open spec fn is_self_or_parent(name: Seq<u8>) -> bool {
    name == seq![DOT] || name == seq![DOT, DOT]
}

/// `name` ends with `suffix`, byte for byte.
pub open spec fn ends_with(name: Seq<u8>, suffix: Seq<u8>) -> bool {
    suffix.len() <= name.len() && name.skip(name.len() - suffix.len()) == suffix
}

/// The entry is a file to report: a regular file, not `.` or `..`, whose
/// name ends with `suffix`.
pub open spec fn is_match(e: DirentRecord, suffix: Seq<u8>) -> bool {
    &&& !is_self_or_parent(e.name)
    &&& e.typ == DirentType::RegularFile.spec_code()
    &&& ends_with(e.name, suffix)
}

/// The entry is a directory to expand: tagged as a directory, and not `.`
/// or `..`.
pub open spec fn is_subdir(e: DirentRecord) -> bool {
    &&& !is_self_or_parent(e.name)
    &&& e.typ == DirentType::Directory.spec_code()
}

/// The path reported for an entry of the directory whose text is `dir`,
/// where it is a file to report.
pub open spec fn match_of(dir: Seq<u8>, suffix: Seq<u8>) -> spec_fn(DirentRecord) -> Option<
    Seq<u8>,
> {
    |e: DirentRecord|
        if is_match(e, suffix) {
            Some(joined_bytes(dir, e.name))
        } else {
            None
        }
}

/// The paths reported for the entries `es` of the directory whose text is
/// `dir`, in the order of the entries.
pub open spec fn matched_paths(dir: Seq<u8>, es: Seq<DirentRecord>, suffix: Seq<u8>) -> Seq<
    Seq<u8>,
> {
    es.filter_map(match_of(dir, suffix))
}

/// The job made for an entry of the directory whose buffer is `buf`, where
/// it is a directory to expand: the buffer with the entry's name pushed.
pub open spec fn job_of(buf: Seq<u8>) -> spec_fn(DirentRecord) -> Option<JobView> {
    |e: DirentRecord|
        if is_subdir(e) {
            Some(JobView::GetDirEntries { path: pushed(buf, e.name) })
        } else {
            None
        }
}

/// The jobs made for the entries `es` of the directory whose buffer is
/// `buf`, in the order of the entries.
pub open spec fn child_jobs(buf: Seq<u8>, es: Seq<DirentRecord>) -> Seq<JobView> {
    es.filter_map(job_of(buf))
}

/// `n` orders to stop.
pub open spec fn stop_orders(n: nat) -> Seq<JobView> {
    Seq::new(n, |i: int| JobView::Shutdown)
}

/// How many workers the one that found no work left has to stop: all but
/// itself.
pub open spec fn peers_to_stop(total: u32) -> u32 {
    if total >= 1 {
        (total - 1) as u32
    } else {
        0
    }
}

/// A worker that met an empty queue is the one to end the run: it was the
/// only busy worker when it stepped down, and the queue was empty when it
/// looked again.
pub open spec fn is_quiescent(busy_before: u32, seen_empty: bool) -> bool {
    busy_before == 1 && seen_empty
}

/// The orders to stop that the worker ending the run sends where `total`
/// workers have started: one for each of the others.
pub open spec fn orders_for(total: u32) -> Seq<JobView> {
    stop_orders(peers_to_stop(total) as nat)
}

/// What one wait saw of the queue and of the counter of busy workers.
pub enum Seen {
    /// The first look at the queue found a job.
    Ready { job: JobView },
    /// The first look found the queue empty and every sender gone.
    Gone,
    /// The queue was empty; the worker stepped down and found that it is
    /// the one to end the run.
    Quiet { busy_before: u32, seen_empty: bool },
    /// The queue was empty; the worker stepped down, waited and was given
    /// a job.
    Woken { busy_before: u32, seen_empty: bool, job: JobView },
    /// The queue was empty; the worker stepped down, waited and every
    /// sender went.
    Lost { busy_before: u32, seen_empty: bool },
}

/// What a job is, where one is given.
pub open spec fn shown(r: Result<Option<Job>, Disconnected>) -> Result<
    Option<JobView>,
    Disconnected,
> {
    match r {
        Ok(Some(job)) => Ok(Some(job@)),
        Ok(None) => Ok(None),
        Err(e) => Err(e),
    }
}

/// What a wait returns for what it saw: the job it was given, no job
/// where the worker is to end the run, and that the queue is lost where
/// its senders are gone.
pub open spec fn outcome_of(seen: Seen) -> Result<Option<JobView>, Disconnected> {
    match seen {
        Seen::Ready { job } => Ok(Some(job)),
        Seen::Gone => Err(Disconnected),
        Seen::Quiet { .. } => Ok(None),
        Seen::Woken { job, .. } => Ok(Some(job)),
        Seen::Lost { .. } => Err(Disconnected),
    }
}

/// What a wait saw fits what it did: it ended the run only as the last
/// busy worker at an empty queue, and it waited only where it was not.
pub open spec fn consistent(seen: Seen) -> bool {
    match seen {
        Seen::Ready { .. } => true,
        Seen::Gone => true,
        Seen::Quiet { busy_before, seen_empty } => is_quiescent(busy_before, seen_empty),
        Seen::Woken { busy_before, seen_empty, .. } => !is_quiescent(busy_before, seen_empty),
        Seen::Lost { busy_before, seen_empty } => !is_quiescent(busy_before, seen_empty),
    }
}

/// How often a wait that saw `seen` took one off the counter of busy
/// workers: once, unless the first look ended it.
pub open spec fn steps_down(seen: Seen) -> nat {
    match seen {
        Seen::Ready { .. } => 0,
        Seen::Gone => 0,
        _ => 1,
    }
}

/// How often a wait that saw `seen` added one to the counter of busy
/// workers: once where it stepped down and returns without an error.
pub open spec fn steps_up(seen: Seen) -> nat {
    match seen {
        Seen::Quiet { .. } => 1,
        Seen::Woken { .. } => 1,
        _ => 0,
    }
}

/// What a worker has done to the queue and to the counters, noted as it did
/// it.
pub struct Ledger {
    /// The jobs put into the queue, oldest first.
    pub enqueued: Seq<JobView>,
    /// What each wait saw, oldest first.
    pub waits: Seq<Seen>,
    /// How often one was added to the counter of started workers.
    pub registered: nat,
    /// How often one was added to the counter of busy workers.
    pub stepped_up: nat,
    /// How often one was taken off the counter of busy workers.
    pub stepped_down: nat,
}

impl Ledger {
    /// What this worker has added to the counter of busy workers, all in all.
    pub open spec fn busy(self) -> int {
        self.stepped_up - self.stepped_down
    }

    /// The ledger after the jobs `jobs` were put into the queue.
    pub open spec fn with_jobs(self, jobs: Seq<JobView>) -> Ledger {
        Ledger { enqueued: self.enqueued + jobs, ..self }
    }

    /// The ledger after one was added to the counter of started workers.
    pub open spec fn counted(self) -> Ledger {
        Ledger { registered: self.registered + 1, ..self }
    }

    /// The ledger after one was added to the counter of busy workers.
    pub open spec fn up(self) -> Ledger {
        Ledger { stepped_up: self.stepped_up + 1, ..self }
    }

    /// The ledger after one was taken off the counter of busy workers.
    pub open spec fn down(self) -> Ledger {
        Ledger { stepped_down: self.stepped_down + 1, ..self }
    }

    /// The ledger after a wait that saw `seen`.
    pub open spec fn after_wait(self, seen: Seen) -> Ledger {
        Ledger {
            waits: self.waits.push(seen),
            stepped_up: self.stepped_up + steps_up(seen),
            stepped_down: self.stepped_down + steps_down(seen),
            ..self
        }
    }
}

/// A wait that returns without an error leaves the worker counted busy as
/// often as before: each step down is made up for by a step up.
pub proof fn lemma_wait_keeps_the_worker_busy(ledger: Ledger, seen: Seen)
    requires
        outcome_of(seen) is Ok,
    ensures
        ledger.after_wait(seen).busy() == ledger.busy(),
{
}

/// What a worker's part does to its count of itself as busy: counting
/// itself at the start adds one, ending its part takes one off, and putting
/// jobs into the queue changes nothing. So a part that starts, waits without
/// an error and ends leaves the count where it was.
pub proof fn lemma_part_leaves_the_count(ledger: Ledger, jobs: Seq<JobView>)
    ensures
        ledger.up().counted().busy() == ledger.busy() + 1,
        ledger.with_jobs(jobs).busy() == ledger.busy(),
        ledger.down().busy() == ledger.busy() - 1,
        ledger.up().counted().with_jobs(jobs).down().busy() == ledger.busy(),
{
}

/// A wait whose first look found a job returns that job and leaves the
/// counter alone; a wait never answers a lost queue with no job.
pub proof fn lemma_wait_outcomes(ledger: Ledger, seen: Seen)
    ensures
        seen matches Seen::Ready { job } ==> {
            &&& outcome_of(seen) == Ok::<Option<JobView>, Disconnected>(Some(job))
            &&& ledger.after_wait(seen).stepped_up == ledger.stepped_up
            &&& ledger.after_wait(seen).stepped_down == ledger.stepped_down
        },
        seen is Gone || seen is Lost ==> outcome_of(seen) is Err,
        outcome_of(seen) == Ok::<Option<JobView>, Disconnected>(None) ==> seen is Quiet,
{
}

/// A directory's own entry and its parent's are never files to report and
/// never directories to expand, whatever their tag and the suffix.
pub proof fn lemma_dot_entries_are_passed_over(e: DirentRecord, suffix: Seq<u8>)
    requires
        is_self_or_parent(e.name),
    ensures
        !is_match(e, suffix),
        !is_subdir(e),
{
}

/// The files reported for a directory and the jobs made for it are those
/// of its entries other than its own and its parent's.
pub proof fn lemma_no_path_for_dot_entries(
    es: Seq<DirentRecord>,
    dir: Seq<u8>,
    buf: Seq<u8>,
    suffix: Seq<u8>,
)
    ensures
        matched_paths(dir, es, suffix) == matched_paths(
            dir,
            es.filter(|e: DirentRecord| !is_self_or_parent(e.name)),
            suffix,
        ),
        child_jobs(buf, es) == child_jobs(
            buf,
            es.filter(|e: DirentRecord| !is_self_or_parent(e.name)),
        ),
    decreases es.len(),
{
    reveal(Seq::filter);
    let keep = |e: DirentRecord| !is_self_or_parent(e.name);
    if es.len() > 0 {
        lemma_no_path_for_dot_entries(es.drop_last(), dir, buf, suffix);
        let rest = es.drop_last().filter(keep);
        if keep(es.last()) {
            assert(rest.push(es.last()).drop_last() =~= rest);
        }
    }
}

/// An entry tagged as a symbolic link is never a directory to expand,
/// whatever it points to.
pub proof fn lemma_links_are_not_expanded(e: DirentRecord)
    requires
        e.typ == DirentType::Link.spec_code(),
    ensures
        !is_subdir(e),
{
}

/// Tells whether `name` is `.` or `..`.
pub fn is_dot_entry(name: &[u8]) -> (b: bool)
    ensures
        b == is_self_or_parent(name@),
{
    let b = (name.len() == 1 && name[0] == DOT) || (name.len() == 2 && name[0] == DOT && name[1]
        == DOT);
    proof {
        if b {
            if name@.len() == 1 {
                assert(name@ =~= seq![DOT]);
            } else {
                assert(name@ =~= seq![DOT, DOT]);
            }
        }
    }
    b
}

/// Tells whether `name` ends with `suffix`, byte for byte.
pub fn has_suffix(name: &[u8], suffix: &[u8]) -> (b: bool)
    ensures
        b == ends_with(name@, suffix@),
{
    if suffix.len() > name.len() {
        return false;
    }
    let start: usize = name.len() - suffix.len();
    let mut i: usize = 0;
    while i < suffix.len()
        invariant
            i <= suffix@.len(),
            start + suffix@.len() == name@.len() <= usize::MAX,
            forall|j: int| 0 <= j < i ==> name@[start + j] == suffix@[j],
        decreases suffix@.len() - i,
    {
        if name[start + i] != suffix[i] {
            return false;
        }
        i += 1;
    }
    assert(name@.skip(start as int) =~= suffix@);
    true
}

/// The path to report for `entry` of the directory `dir`, where it is a
/// file to report.
pub fn file_match(dir: &Path, entry: &Dirent64, suffix: &[u8]) -> (found: Option<Path>)
    requires
        dir.wf(),
        no_nul(entry@.name),
    ensures
        match found {
            Some(p) => {
                &&& is_match(entry@, suffix@)
                &&& p@ == joined_bytes(dir.text(), entry@.name)
                &&& p.wf()
            },
            None => !is_match(entry@, suffix@),
        },
{
    if is_dot_entry(entry.filename.as_slice()) {
        return None;
    }
    if entry.typ == DirentType::RegularFile.code() && has_suffix(
        entry.filename.as_slice(),
        suffix,
    ) {
        Some(Path::joined(dir, entry.filename.as_slice()))
    } else {
        None
    }
}

/// The job to enqueue for `entry` of the directory `path`, where it is a
/// directory to expand. The name is pushed onto `path` for the job's copy
/// and taken off again, so `path` is left as it was.
pub fn child_job(path: &mut Path, entry: &Dirent64) -> (job: Option<Job>)
    requires
        old(path).wf(),
        no_nul(entry@.name),
    ensures
        final(path)@ == old(path)@,
        match job {
            Some(j) => {
                &&& is_subdir(entry@)
                &&& j@ == (JobView::GetDirEntries { path: pushed(old(path)@, entry@.name) })
            },
            None => !is_subdir(entry@),
        },
{
    let name = entry.filename.as_slice();
    if is_dot_entry(name) {
        return None;
    }
    if entry.typ != DirentType::Directory.code() {
        return None;
    }
    let len_before: usize = path.to_bytes().len();
    path.push(name);
    let job = Job::get_dir_entries(path.clone());
    path.truncate(len_before);
    proof {
        lemma_push_truncate_restores(old(path)@, name@);
    }
    Some(job)
}

/// The counters that the workers share to find out that no work is left.
pub struct Shared {
    /// Workers that hold a job, or are deciding whether to wait for one.
    pub busy_workers: AtomicU32,
    /// Workers that have started.
    pub num_of_workers: AtomicU32,
}

/// The queue has lost its other end while jobs were still expected.
#[derive(Clone, Copy, Debug, PartialEq, Eq)]
pub struct Disconnected;

/// Why the entries of a directory were not all handled.
#[derive(Clone, Copy, Debug, PartialEq, Eq)]
pub enum WalkError {
    /// The read did not leave a batch in the buffer.
    BadRead,
    /// A record of the batch is not sound.
    Malformed,
    /// A job could not be put into the queue.
    Disconnected,
}

/// What a worker does next.
#[derive(Debug)]
pub enum Step {
    /// Expand this directory.
    Expand { path: Path },
    /// Leave the loop, and first stop the other workers where this one
    /// found that no work is left.
    Stop { initiate_shutdown: bool },
}

/// One worker: its ends of the queue, the counters it shares, the buffer
/// its reads fill, the paths it has found, and the ledger of what it has
/// done to the queue and to the counters.
pub struct Worker {
    pub shared: Arc<Shared>,
    pub dirent_buf: Vec<u64>,
    pub send: crossbeam_channel::Sender<Job>,
    pub recv: crossbeam_channel::Receiver<Job>,
    pub files: Vec<Path>,
    pub suffix: Vec<u8>,
    pub id: u32,
    pub ledger: Ghost<Ledger>,
}

/// Puts `job` into the queue and, where the queue took it, notes it in the
/// ledger. Whether the queue takes it is for the queue to say: it does not
/// once every receiver is gone.
fn enqueue(send: &crossbeam_channel::Sender<Job>, ledger: &mut Ghost<Ledger>, job: Job) -> (sent:
    bool)
    ensures
        final(ledger)@ == if sent {
            old(ledger)@.with_jobs(seq![job@])
        } else {
            old(ledger)@
        },
{
    let ghost asked = job@;
    let sent = send_job(send, job);
    if sent {
        proof {
            ledger@ = ledger@.with_jobs(seq![asked]);
        }
    }
    sent
}

/// Takes one off the counter of busy workers, notes it in the ledger and
/// tells what the counter held before.
fn step_down(shared: &Arc<Shared>, ledger: &mut Ghost<Ledger>) -> (busy_before: u32)
    ensures
        final(ledger)@ == old(ledger)@.down(),
{
    let busy_before: u32 = shared.busy_workers.fetch_sub(1, Ordering::SeqCst);
    proof {
        ledger@ = ledger@.down();
    }
    busy_before
}

/// Adds one to the counter of busy workers and notes it in the ledger.
fn step_up(shared: &Arc<Shared>, ledger: &mut Ghost<Ledger>)
    ensures
        final(ledger)@ == old(ledger)@.up(),
{
    shared.busy_workers.fetch_add(1, Ordering::SeqCst);
    proof {
        ledger@ = ledger@.up();
    }
}

/// Adds one to the counter of started workers and notes it in the ledger.
fn count_started(shared: &Arc<Shared>, ledger: &mut Ghost<Ledger>)
    ensures
        final(ledger)@ == old(ledger)@.counted(),
{
    shared.num_of_workers.fetch_add(1, Ordering::SeqCst);
    proof {
        ledger@ = ledger@.counted();
    }
}

/// How many workers the one that found no work left has to stop.
pub fn shutdown_count(total: u32) -> (n: u32)
    ensures
        n == peers_to_stop(total),
{
    if total >= 1 {
        total - 1
    } else {
        0
    }
}

/// Tells whether a worker that met an empty queue is the one to end the
/// run. `busy_before` is the count of busy workers that its stepping down
/// returned, `seen_empty` whether it then saw the queue empty.
pub fn ends_the_run(busy_before: u32, seen_empty: bool) -> (b: bool)
    ensures
        b == is_quiescent(busy_before, seen_empty),
{
    busy_before == 1 && seen_empty
}

/// What a worker does with what its wait gave: with no job it leaves and
/// stops the others, with the order to stop it leaves, with a directory it
/// expands it.
pub fn step_for(job: Option<Job>) -> (step: Step)
    ensures
        match job {
            None => step == (Step::Stop { initiate_shutdown: true }),
            Some(j) => match j@ {
                JobView::Shutdown => step == (Step::Stop { initiate_shutdown: false }),
                JobView::GetDirEntries { path } => step matches Step::Expand { path: p } && p@
                    == path && p.wf(),
            },
        },
{
    match job {
        None => Step::Stop { initiate_shutdown: true },
        Some(j) => match j.into_path() {
            None => Step::Stop { initiate_shutdown: false },
            Some(path) => Step::Expand { path },
        },
    }
}

impl Worker {
    /// The paths found so far, as bytes.
    pub open spec fn found(&self) -> Seq<Seq<u8>> {
        self.files@.map_values(|p: Path| p@)
    }

    /// This worker has the ends of the queue, the counters, the buffer, the
    /// suffix and the number that it had when it was `before`.
    pub open spec fn same_setup(&self, before: Worker) -> bool {
        &&& self.shared == before.shared
        &&& self.dirent_buf@ == before.dirent_buf@
        &&& self.send == before.send
        &&& self.recv == before.recv
        &&& self.suffix@ == before.suffix@
        &&& self.id == before.id
    }

    /// The paths found since this worker was `before` are terminated.
    pub open spec fn found_well(&self, before: Worker) -> bool {
        forall|i: int|
            before.files@.len() <= i < self.files@.len() ==> (#[trigger] self.files@[i]).wf()
    }

    /// Since it was `before`, this worker has handled the entries `es` of
    /// the directory whose buffer is `buf`: it has found the files among
    /// them that match and enqueued a job for each directory among them, and
    /// nothing else.
    pub open spec fn handled(&self, before: Worker, buf: Seq<u8>, es: Seq<DirentRecord>) -> bool {
        &&& self.found() == before.found() + matched_paths(buf.drop_last(), es, before.suffix@)
        &&& self.ledger@ == before.ledger@.with_jobs(child_jobs(buf, es))
    }

    /// Since it was `before`, this worker has done what `walk` does with
    /// the directory whose buffer is `path` after a read that returned
    /// `status`, and `r` is what `walk` returns for it.
    pub open spec fn walked(
        &self,
        before: Worker,
        path: Seq<u8>,
        status: isize,
        r: Result<Path, WalkError>,
    ) -> bool {
        let len = before.dirent_buf@.len();
        let batch = before.dirent_buf@.take(status as int / 8);
        match r {
            Ok(p) => {
                &&& p@ == path
                &&& read_ok(status, len)
                &&& batch_ok(batch)
                &&& self.handled(before, path, entries(batch))
            },
            Err(WalkError::BadRead) => {
                &&& !read_ok(status, len)
                &&& self.found() == before.found()
                &&& self.ledger@ == before.ledger@
            },
            Err(WalkError::Malformed) => {
                &&& read_ok(status, len)
                &&& !batch_ok(batch)
                &&& self.handled(before, path, entries(batch))
            },
            Err(WalkError::Disconnected) => {
                &&& read_ok(status, len)
                &&& exists|k: int|
                    {
                        &&& 0 <= k < entries(batch).len()
                        &&& is_subdir(#[trigger] entries(batch)[k])
                        &&& self.handled(before, path, entries(batch).take(k))
                    }
            },
        }
    }

    /// A worker that has found nothing and done nothing yet.
    pub fn new(
        shared: Arc<Shared>,
        dirent_buf: Vec<u64>,
        send: crossbeam_channel::Sender<Job>,
        recv: crossbeam_channel::Receiver<Job>,
        suffix: Vec<u8>,
        id: u32,
    ) -> (w: Worker)
        ensures
            w.shared == shared,
            w.dirent_buf == dirent_buf,
            w.send == send,
            w.recv == recv,
            w.suffix == suffix,
            w.id == id,
            w.files@.len() == 0,
            w.ledger@ == (Ledger {
                enqueued: Seq::empty(),
                waits: Seq::empty(),
                registered: 0,
                stepped_up: 0,
                stepped_down: 0,
            }),
    {
        Worker {
            shared,
            dirent_buf,
            send,
            recv,
            files: Vec::with_capacity(128),
            suffix,
            id,
            ledger: Ghost(
                Ledger {
                    enqueued: Seq::empty(),
                    waits: Seq::empty(),
                    registered: 0,
                    stepped_up: 0,
                    stepped_down: 0,
                },
            ),
        }
    }

    /// Counts this worker as started and as busy.
    pub fn register(&mut self)
        ensures
            final(self).same_setup(*old(self)),
            final(self).files == old(self).files,
            final(self).ledger@ == old(self).ledger@.up().counted(),
    {
        step_up(&self.shared, &mut self.ledger);
        count_started(&self.shared, &mut self.ledger);
    }

    /// Takes the next job, waiting for one where the queue is empty and
    /// other workers are still busy. Gives no job where this worker finds
    /// that no work is left.
    ///
    /// What the queue and the counter show is for them to say: the other
    /// workers change both at any time. The ledger notes what this wait saw
    /// of them, as the last of its waits, and what is returned follows from
    /// that: the job that was found or given, no job where the worker was
    /// the last busy one at an empty queue, `Disconnected` where the queue
    /// has lost every sender. The worker is counted busy when it returns
    /// without an error, as it was when it came.
    pub fn wait_for_job(&mut self) -> (r: Result<Option<Job>, Disconnected>)
        ensures
            final(self).same_setup(*old(self)),
            final(self).files == old(self).files,
            final(self).ledger@ == old(self).ledger@.after_wait(final(self).ledger@.waits.last()),
            consistent(final(self).ledger@.waits.last()),
            shown(r) == outcome_of(final(self).ledger@.waits.last()),
            r is Ok ==> final(self).ledger@.busy() == old(self).ledger@.busy(),
    {
        match try_recv_job(&self.recv) {
            Polled::Ready(job) => {
                proof {
                    let seen = Seen::Ready { job: job@ };
                    self.ledger@ = self.ledger@.after_wait(seen);
                }
                return Ok(Some(job));
            },
            Polled::Disconnected => {
                proof {
                    self.ledger@ = self.ledger@.after_wait(Seen::Gone);
                }
                return Err(Disconnected);
            },
            Polled::Empty => {},
        }
        // The queue is empty: step down, and learn how many were busy.
        let busy: u32 = step_down(&self.shared, &mut self.ledger);
        // Only the worker that was the last busy one looks at the queue again.
        let seen_empty: bool = busy == 1 && queue_is_empty(&self.recv);
        if ends_the_run(busy, seen_empty) {
            step_up(&self.shared, &mut self.ledger);
            proof {
                let seen = Seen::Quiet { busy_before: busy, seen_empty };
                self.ledger@ = Ledger { waits: self.ledger@.waits.push(seen), ..self.ledger@ };
                assert(self.ledger@ == old(self).ledger@.after_wait(seen));
            }
            return Ok(None);
        }
        match recv_job(&self.recv) {
            Some(job) => {
                step_up(&self.shared, &mut self.ledger);
                proof {
                    let seen = Seen::Woken { busy_before: busy, seen_empty, job: job@ };
                    self.ledger@ = Ledger { waits: self.ledger@.waits.push(seen), ..self.ledger@ };
                    assert(self.ledger@ == old(self).ledger@.after_wait(seen));
                }
                Ok(Some(job))
            },
            None => {
                proof {
                    let seen = Seen::Lost { busy_before: busy, seen_empty };
                    self.ledger@ = Ledger { waits: self.ledger@.waits.push(seen), ..self.ledger@ };
                    assert(self.ledger@ == old(self).ledger@.after_wait(seen));
                }
                Err(Disconnected)
            },
        }
    }

    /// Handles the entries that a read returning `status` has left in this
    /// worker's buffer, as those of the directory `path`: reports the
    /// files that match and enqueues a job for each directory.
    pub fn walk(&mut self, path: Path, status: isize) -> (r: Result<Path, WalkError>)
        requires
            path.wf(),
        ensures
            final(self).same_setup(*old(self)),
            final(self).found_well(*old(self)),
            final(self).walked(*old(self), path@, status, r),
    {
        if !read_is_valid(status, self.dirent_buf.len()) {
            return Err(WalkError::BadRead);
        }
        let mut cur = path;
        let (mut dents, _) = getdents64(status, self.dirent_buf.as_slice());
        let ghost batch = dents@;
        let ghost dir = path.text();
        let ghost suffix = self.suffix@;
        let ghost mut n: int = 0;
        proof {
            assert(entries(batch).take(0) =~= Seq::<DirentRecord>::empty());
            assert(self.found() =~= old(self).found() + matched_paths(
                dir,
                entries(batch).take(0),
                suffix,
            ));
            assert(self.ledger@.enqueued =~= old(self).ledger@.enqueued + child_jobs(
                path@,
                entries(batch).take(0),
            ));
        }
        loop
            invariant
                cur@ == path@,
                path.wf(),
                dir == path.text(),
                read_ok(status, old(self).dirent_buf@.len()),
                batch == old(self).dirent_buf@.take(status as int / 8),
                suffix == old(self).suffix@,
                self.same_setup(*old(self)),
                0 <= n <= entries(batch).len(),
                entries(dents@) == entries(batch).skip(n),
                batch_ok(dents@) == batch_ok(batch),
                old(self).files@.len() <= self.files@.len(),
                self.found_well(*old(self)),
                self.handled(*old(self), path@, entries(batch).take(n)),
            decreases dents@.len(),
        {
            if !dents.head_is_valid() {
                proof {
                    assert(entries(batch).take(n) =~= entries(batch));
                }
                return Err(WalkError::Malformed);
            }
            let entry = match dents.next() {
                Some(entry) => entry,
                None => {
                    proof {
                        assert(entries(batch).take(n) =~= entries(batch));
                    }
                    return Ok(cur);
                },
            };
            proof {
                assert(entries(batch).skip(n).skip(1) =~= entries(batch).skip(n + 1));
                assert(entries(batch)[n] == entries(batch).skip(n)[0]);
                entries(batch).lemma_filter_map_take_succ(match_of(dir, suffix), n);
                entries(batch).lemma_filter_map_take_succ(job_of(path@), n);
            }
            let ghost shown = self.found();
            match file_match(&cur, &entry, self.suffix.as_slice()) {
                Some(p) => {
                    self.files.push(p);
                    assert(self.found() =~= shown.push(p@));
                },
                None => {},
            }
            assert(self.found() =~= old(self).found() + matched_paths(
                dir,
                entries(batch).take(n + 1),
                suffix,
            ));
            match child_job(&mut cur, &entry) {
                Some(job) => {
                    if !enqueue(&self.send, &mut self.ledger, job) {
                        return Err(WalkError::Disconnected);
                    }
                },
                None => {},
            }
            assert(self.ledger@.enqueued =~= old(self).ledger@.enqueued + child_jobs(
                path@,
                entries(batch).take(n + 1),
            ));
            proof {
                n = n + 1;
            }
        }
    }

    /// Handles the directory `path` after the attempt to open and read it.
    /// Where it could not be opened, `read` is the error: the directory is
    /// passed over, nothing is reported and no job is made. Where it was
    /// opened, `read` is what the read into this worker's buffer returned,
    /// and the entries are handled as `walk` handles them.
    pub fn expand(&mut self, path: Path, read: Result<isize, OpenError>) -> (r: Result<
        Path,
        WalkError,
    >)
        requires
            path.wf(),
        ensures
            final(self).same_setup(*old(self)),
            final(self).found_well(*old(self)),
            match read {
                Err(_) => {
                    &&& r matches Ok(p)
                    &&& p@ == path@
                    &&& final(self).files == old(self).files
                    &&& final(self).ledger@ == old(self).ledger@
                },
                Ok(status) => final(self).walked(*old(self), path@, status, r),
            },
    {
        match read {
            Err(_) => Ok(path),
            Ok(status) => self.walk(path, status),
        }
    }

    /// Puts one order to stop into the queue for every worker but this one,
    /// of `total` workers.
    pub fn stop_peers(&mut self, total: u32) -> (r: Result<(), Disconnected>)
        ensures
            final(self).same_setup(*old(self)),
            final(self).files == old(self).files,
            match r {
                Ok(_) => final(self).ledger@ == old(self).ledger@.with_jobs(orders_for(total)),
                Err(_) => exists|k: nat|
                    k < peers_to_stop(total) && final(self).ledger@ == old(self).ledger@.with_jobs(
                        #[trigger] stop_orders(k),
                    ),
            },
            peers_to_stop(total) == 0 ==> r is Ok,
    {
        let n: u32 = shutdown_count(total);
        let mut i: u32 = 0;
        proof {
            assert(self.ledger@.enqueued =~= old(self).ledger@.enqueued + stop_orders(0));
        }
        while i < n
            invariant
                i <= n,
                n == peers_to_stop(total),
                self.same_setup(*old(self)),
                self.files == old(self).files,
                self.ledger@ == old(self).ledger@.with_jobs(stop_orders(i as nat)),
            decreases n - i,
        {
            if !enqueue(&self.send, &mut self.ledger, Job::shutdown()) {
                return Err(Disconnected);
            }
            i += 1;
            assert(self.ledger@.enqueued =~= old(self).ledger@.enqueued + stop_orders(i as nat));
        }
        Ok(())
    }

    /// Ends this worker's part: stops every other worker where this one is
    /// to do so, counts itself as no longer busy and hands out the paths it
    /// found, with the ledger as it stands at the end. Only the worker that
    /// ends the run sends orders to stop; it sends one for each other worker
    /// that the counter of started workers shows.
    pub fn finish(self, initiate_shutdown: bool) -> (r: (
        Result<Vec<Path>, Disconnected>,
        Ghost<Ledger>,
    ))
        ensures
            r.0 matches Ok(files) ==> files == self.files,
            !initiate_shutdown ==> r.0 is Ok && r.1@ == self.ledger@.down(),
            initiate_shutdown && r.0 is Ok ==> exists|total: u32|
                r.1@ == self.ledger@.with_jobs(#[trigger] orders_for(total)).down(),
            r.0 is Err ==> exists|k: nat|
                r.1@ == self.ledger@.with_jobs(#[trigger] stop_orders(k)),
    {
        let mut worker = self;
        if initiate_shutdown {
            // Every other worker waits for a job: give each one the order to stop.
            let total: u32 = worker.shared.num_of_workers.load(Ordering::SeqCst);
            match worker.stop_peers(total) {
                Ok(_) => {
                    assert(worker.ledger@ == self.ledger@.with_jobs(orders_for(total)));
                },
                Err(e) => {
                    return (Err(e), worker.ledger);
                },
            }
        }
        step_down(&worker.shared, &mut worker.ledger);
        let ledger = worker.ledger;
        (Ok(worker.files), ledger)
    }
}

} // verus!

//! The crawl as a whole: what is expanded and what is reported for a
//! directory tree, in whatever order the jobs are taken from the queue.
//!
//! A crawl starts with the job for the root. Handling a job reports the
//! matching files of its directory and puts a job into the queue for each
//! directory in it. Which worker takes which job, and when, is not fixed:
//! here a schedule picks, step by step, any of the jobs that wait. The laws
//! of this module hold of every schedule.

use crate::dirent::DirentRecord;
use crate::path::pushed;
use crate::queue::JobView;
use crate::worker::{child_jobs, is_subdir, job_of, matched_paths};
use vstd::multiset::*;
use vstd::prelude::*;

verus! {

/// One entry of a directory tree. Where the entry is a directory that can be
/// opened, `below` holds its entries in the order in which a read returns
/// them; for anything else it holds nothing.
pub struct Node {
    pub entry: DirentRecord,
    pub below: Option<Seq<Node>>,
}

/// A job together with what lies at its path.
pub struct Task {
    pub buf: Seq<u8>,
    pub node: Node,
}

/// The state of a crawl: the tasks that wait in the queue and those that
/// have been handled, each in the order in which it got there.
pub struct Crawl {
    pub pending: Seq<Task>,
    pub done: Seq<Task>,
}

/// What a quantity counts for one task; summed up over tasks.
pub type Measure = spec_fn(Task) -> Multiset<Seq<u8>>;

/// The entries that a read of the directory at `node` returns.
pub open spec fn listing(node: Node) -> Seq<DirentRecord> {
    match node.below {
        Some(ns) => ns.map_values(|c: Node| c.entry),
        None => Seq::empty(),
    }
}

/// The task for the node `c` below the directory whose buffer is `buf`,
/// where its entry is a directory to expand.
pub open spec fn task_below(buf: Seq<u8>) -> spec_fn(Node) -> Option<Task> {
    |c: Node|
        if is_subdir(c.entry) {
            Some(Task { buf: pushed(buf, c.entry.name), node: c })
        } else {
            None
        }
}

/// The tasks that handling `t` puts into the queue, in order.
pub open spec fn children(t: Task) -> Seq<Task> {
    match t.node.below {
        Some(ns) => ns.filter_map(task_below(t.buf)),
        None => Seq::empty(),
    }
}

/// Counts each handled directory once, by its buffer.
pub open spec fn expansion() -> Measure {
    |t: Task| Multiset::singleton(t.buf)
}

/// Counts the files that handling a task reports, by their paths.
pub open spec fn report(suffix: Seq<u8>) -> Measure {
    |t: Task| matched_paths(t.buf.drop_last(), listing(t.node), suffix).to_multiset()
}

/// What `f` counts for `t` and for everything below it.
pub open spec fn total(f: Measure, t: Task) -> Multiset<Seq<u8>>
    decreases t.node, 0nat,
{
    f(t).add(
        match t.node.below {
            Some(ns) => total_below(f, t.buf, ns, ns.len()),
            None => Multiset::empty(),
        },
    )
}

/// What `f` counts for the directories to expand among the first `k` of the
/// nodes `ns` below the directory whose buffer is `buf`, and for everything
/// below them.
pub open spec fn total_below(f: Measure, buf: Seq<u8>, ns: Seq<Node>, k: nat) -> Multiset<Seq<u8>>
    decreases ns, k,
{
    if k == 0 || k > ns.len() {
        Multiset::empty()
    } else {
        let c = ns[k - 1];
        let rest = total_below(f, buf, ns, (k - 1) as nat);
        if is_subdir(c.entry) {
            rest.add(total(f, Task { buf: pushed(buf, c.entry.name), node: c }))
        } else {
            rest
        }
    }
}

/// What `f` counts for the tasks `ts` themselves.
pub open spec fn sum(f: Measure, ts: Seq<Task>) -> Multiset<Seq<u8>>
    decreases ts.len(),
{
    if ts.len() == 0 {
        Multiset::empty()
    } else {
        sum(f, ts.drop_last()).add(f(ts.last()))
    }
}

/// What `f` counts for the tasks `ts` and for everything below them.
pub open spec fn sum_total(f: Measure, ts: Seq<Task>) -> Multiset<Seq<u8>>
    decreases ts.len(),
{
    if ts.len() == 0 {
        Multiset::empty()
    } else {
        sum_total(f, ts.drop_last()).add(total(f, ts.last()))
    }
}

/// The crawl after the task at place `i` of the queue has been handled: it
/// has left the queue, the tasks it makes have joined it at the end.
pub open spec fn step(c: Crawl, i: int) -> Crawl {
    Crawl {
        pending: c.pending.remove(i) + children(c.pending[i]),
        done: c.done.push(c.pending[i]),
    }
}

/// The crawl of the tree at `root` after the steps that `picks` names.
pub open spec fn run(root: Task, picks: Seq<int>) -> Crawl
    decreases picks.len(),
{
    if picks.len() == 0 {
        Crawl { pending: seq![root], done: Seq::empty() }
    } else {
        step(run(root, picks.drop_last()), picks.last())
    }
}

/// `picks` is a schedule for the tree at `root`: each step picks a task
/// that waits in the queue at that time.
pub open spec fn is_schedule(root: Task, picks: Seq<int>) -> bool
    decreases picks.len(),
{
    picks.len() > 0 ==> {
        &&& is_schedule(root, picks.drop_last())
        &&& 0 <= picks.last() < run(root, picks.drop_last()).pending.len()
    }
}

/// The directories of the tree at `root` that a crawl is to expand, each
/// by the buffer of its job.
pub open spec fn directories(root: Task) -> Multiset<Seq<u8>> {
    total(expansion(), root)
}

/// The files of the tree at `root` that a crawl is to report.
pub open spec fn files(root: Task, suffix: Seq<u8>) -> Multiset<Seq<u8>> {
    total(report(suffix), root)
}

/// What a job asks for that stands for the task `t`.
pub open spec fn job_for(t: Task) -> JobView {
    JobView::GetDirEntries { path: t.buf }
}

/// `picks` is a schedule that leaves no task in the queue.
pub open spec fn is_complete(root: Task, picks: Seq<int>) -> bool {
    is_schedule(root, picks) && run(root, picks).pending.len() == 0
}

proof fn lemma_sum_total_add(f: Measure, a: Seq<Task>, b: Seq<Task>)
    ensures
        sum_total(f, a + b) == sum_total(f, a).add(sum_total(f, b)),
    decreases b.len(),
{
    if b.len() == 0 {
        assert(a + b =~= a);
    } else {
        lemma_sum_total_add(f, a, b.drop_last());
        assert((a + b).drop_last() =~= a + b.drop_last());
    }
}

proof fn lemma_sum_total_remove(f: Measure, s: Seq<Task>, i: int)
    requires
        0 <= i < s.len(),
    ensures
        sum_total(f, s) == sum_total(f, s.remove(i)).add(total(f, s[i])),
    decreases s.len(),
{
    if i == s.len() - 1 {
        assert(s.remove(i) =~= s.drop_last());
    } else {
        lemma_sum_total_remove(f, s.drop_last(), i);
        assert(s.remove(i).drop_last() =~= s.drop_last().remove(i));
    }
}

proof fn lemma_sum_total_children(f: Measure, buf: Seq<u8>, ns: Seq<Node>, k: nat)
    requires
        k <= ns.len(),
    ensures
        sum_total(f, ns.take(k as int).filter_map(task_below(buf))) == total_below(f, buf, ns, k),
    decreases k,
{
    if k > 0 {
        lemma_sum_total_children(f, buf, ns, (k - 1) as nat);
        ns.lemma_filter_map_take_succ(task_below(buf), k - 1);
        let before = ns.take(k - 1).filter_map(task_below(buf));
        let c = ns[k - 1];
        if is_subdir(c.entry) {
            let t = Task { buf: pushed(buf, c.entry.name), node: c };
            assert(ns.take(k as int).filter_map(task_below(buf)) =~= before.push(t));
            assert(before.push(t).drop_last() =~= before);
        }
    }
}

/// Handling a task moves what `f` counts for it from what is still to come
/// to what has been done, and changes nothing else.
proof fn lemma_step_keeps_total(f: Measure, c: Crawl, i: int)
    requires
        0 <= i < c.pending.len(),
    ensures
        sum(f, step(c, i).done).add(sum_total(f, step(c, i).pending)) == sum(f, c.done).add(
            sum_total(f, c.pending),
        ),
{
    let t = c.pending[i];
    lemma_sum_total_remove(f, c.pending, i);
    lemma_sum_total_add(f, c.pending.remove(i), children(t));
    match t.node.below {
        Some(ns) => {
            lemma_sum_total_children(f, t.buf, ns, ns.len());
            assert(ns.take(ns.len() as int) =~= ns);
        },
        None => {},
    }
    assert(c.done.push(t).drop_last() =~= c.done);
}

/// At every point of a crawl, what has been done and what is still to come
/// make up the whole of the tree.
pub proof fn lemma_run_keeps_total(f: Measure, root: Task, picks: Seq<int>)
    requires
        is_schedule(root, picks),
    ensures
        sum(f, run(root, picks).done).add(sum_total(f, run(root, picks).pending)) == total(
            f,
            root,
        ),
        run(root, picks).done.len() == picks.len(),
    decreases picks.len(),
{
    if picks.len() == 0 {
        let start = seq![root];
        assert(sum_total(f, start.drop_last()) =~= Multiset::<Seq<u8>>::empty());
    } else {
        lemma_run_keeps_total(f, root, picks.drop_last());
        lemma_step_keeps_total(f, run(root, picks.drop_last()), picks.last());
    }
}

proof fn lemma_sum_of_expansion_len(ts: Seq<Task>)
    ensures
        sum(expansion(), ts).len() == ts.len(),
    decreases ts.len(),
{
    if ts.len() > 0 {
        lemma_sum_of_expansion_len(ts.drop_last());
    }
}

proof fn lemma_jobs_of_children(buf: Seq<u8>, ns: Seq<Node>, k: nat)
    requires
        k <= ns.len(),
    ensures
        ns.take(k as int).filter_map(task_below(buf)).map_values(|c: Task| job_for(c))
            == child_jobs(buf, ns.map_values(|c: Node| c.entry).take(k as int)),
    decreases k,
{
    let es = ns.map_values(|c: Node| c.entry);
    if k > 0 {
        lemma_jobs_of_children(buf, ns, (k - 1) as nat);
        ns.lemma_filter_map_take_succ(task_below(buf), k - 1);
        es.lemma_filter_map_take_succ(job_of(buf), k - 1);
    }
}

/// A step of the crawl does to a task what `Worker::walk` does to the
/// entries of its directory: the files it reports are those that match among
/// the entries, the tasks it makes stand for the jobs made for the entries.
pub proof fn lemma_step_is_a_walk(t: Task, suffix: Seq<u8>)
    ensures
        report(suffix)(t) == matched_paths(
            t.buf.drop_last(),
            listing(t.node),
            suffix,
        ).to_multiset(),
        children(t).map_values(|c: Task| job_for(c)) == child_jobs(t.buf, listing(t.node)),
{
    match t.node.below {
        Some(ns) => {
            lemma_jobs_of_children(t.buf, ns, ns.len());
            assert(ns.take(ns.len() as int) =~= ns);
            let es = ns.map_values(|c: Node| c.entry);
            assert(es.take(ns.len() as int) =~= es);
        },
        None => {},
    }
}

/// The files that a crawl reports do not depend on the order in which its
/// jobs are taken: any two schedules that leave no job in the queue report
/// the same files, each as often, and these are the files of the tree.
pub proof fn lemma_reports_do_not_depend_on_the_schedule(
    root: Task,
    suffix: Seq<u8>,
    first: Seq<int>,
    second: Seq<int>,
)
    requires
        is_complete(root, first),
        is_complete(root, second),
    ensures
        sum(report(suffix), run(root, first).done) == sum(report(suffix), run(root, second).done),
        sum(report(suffix), run(root, first).done) == files(root, suffix),
{
    lemma_run_keeps_total(report(suffix), root, first);
    lemma_run_keeps_total(report(suffix), root, second);
    let none = Multiset::<Seq<u8>>::empty();
    let one = sum(report(suffix), run(root, first).done);
    let other = sum(report(suffix), run(root, second).done);
    assert(one.add(none) =~= one);
    assert(other.add(none) =~= other);
}

/// A crawl that leaves no job in the queue has expanded every directory of
/// the tree as often as the tree holds it, and has taken as many steps as
/// the tree has directories to expand.
pub proof fn lemma_every_directory_is_expanded(root: Task, picks: Seq<int>)
    requires
        is_complete(root, picks),
    ensures
        sum(expansion(), run(root, picks).done) == directories(root),
        picks.len() == directories(root).len(),
{
    lemma_run_keeps_total(expansion(), root, picks);
    lemma_sum_of_expansion_len(run(root, picks).done);
    let expanded = sum(expansion(), run(root, picks).done);
    assert(expanded.add(Multiset::<Seq<u8>>::empty()) =~= expanded);
}

/// A crawl comes to an end: no schedule has more steps than the tree has
/// directories to expand, and one that has fewer has not emptied the queue.
pub proof fn lemma_crawl_ends(root: Task, picks: Seq<int>)
    requires
        is_schedule(root, picks),
    ensures
        picks.len() <= directories(root).len(),
        picks.len() < directories(root).len() ==> run(root, picks).pending.len() > 0,
{
    lemma_run_keeps_total(expansion(), root, picks);
    lemma_sum_of_expansion_len(run(root, picks).done);
    if run(root, picks).pending.len() == 0 {
        let expanded = sum(expansion(), run(root, picks).done);
        assert(expanded.add(Multiset::<Seq<u8>>::empty()) =~= expanded);
    }
}

} // verus!

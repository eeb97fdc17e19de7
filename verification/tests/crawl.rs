use crossbeam_channel::unbounded;
use dircrawl::directory::OpenError;
use dircrawl::path::Path;
use dircrawl::queue::Job;
use dircrawl::worker::{step_for, Shared, Step, Worker};
use std::collections::{BTreeSet, HashMap};
use std::sync::atomic::{AtomicU32, AtomicUsize, Ordering};
use std::sync::Arc;

const DIR: u8 = 4;
const REG: u8 = 8;
const LNK: u8 = 10;

/// A directory tree held in memory: the text of each directory's path with
/// the batch that a read of it returns.
struct Tree {
    dirs: HashMap<Vec<u8>, Vec<u64>>,
    expanded: AtomicUsize,
}

fn record(inode: u64, typ: u8, name: &[u8]) -> Vec<u8> {
    let reclen = (19 + name.len() + 1 + 7) / 8 * 8;
    let mut r = Vec::with_capacity(reclen);
    r.extend_from_slice(&inode.to_le_bytes());
    r.extend_from_slice(&0u64.to_le_bytes());
    r.extend_from_slice(&(reclen as u16).to_le_bytes());
    r.push(typ);
    r.extend_from_slice(name);
    r.resize(reclen, 0);
    r
}

fn batch(entries: &[(u8, &[u8])]) -> Vec<u64> {
    let mut bytes = record(1, DIR, b".");
    bytes.extend_from_slice(&record(2, DIR, b".."));
    for (i, (typ, name)) in entries.iter().enumerate() {
        bytes.extend_from_slice(&record(i as u64 + 3, *typ, name));
    }
    bytes
        .chunks(8)
        .map(|c| u64::from_le_bytes([c[0], c[1], c[2], c[3], c[4], c[5], c[6], c[7]]))
        .collect()
}

fn tree(dirs: &[(&[u8], &[(u8, &[u8])])]) -> Arc<Tree> {
    let mut map = HashMap::new();
    for (path, entries) in dirs {
        map.insert(path.to_vec(), batch(entries));
    }
    Arc::new(Tree { dirs: map, expanded: AtomicUsize::new(0) })
}

/// What a worker found, and whether it was the one to end the run.
struct Outcome {
    files: Vec<Path>,
    initiated: bool,
}

/// The loop of one worker over the tree in memory. A path that the tree
/// does not hold cannot be opened and is passed over.
fn work_loop(w: &mut Worker, tree: &Tree) -> bool {
    loop {
        let job = w.wait_for_job().expect("channel disconnected");
        match step_for(job) {
            Step::Stop { initiate_shutdown } => return initiate_shutdown,
            Step::Expand { path } => {
                if let Some(b) = tree.dirs.get(path.to_bytes()) {
                    tree.expanded.fetch_add(1, Ordering::SeqCst);
                    w.dirent_buf[..b.len()].copy_from_slice(b);
                    w.expand(path, Ok((b.len() * 8) as isize)).expect("sound batch");
                } else {
                    w.expand(path, Err(OpenError::NotFound)).expect("passed over");
                }
            }
        }
    }
}

fn work(mut w: Worker, tree: &Tree) -> Outcome {
    w.register();
    let initiated = work_loop(&mut w, tree);
    let files = w.finish(initiated).0.expect("channel disconnected");
    Outcome { files, initiated }
}

struct Run {
    files: BTreeSet<String>,
    initiators: usize,
    queue_empty: bool,
    busy: u32,
    expanded: usize,
}

/// Runs the whole crawl with one worker, as the program does with a pool.
fn crawl(tree: &Arc<Tree>, root: &str) -> Run {
    let workers: u32 = 1;
    tree.expanded.store(0, Ordering::SeqCst);
    let (s, r) = unbounded();
    s.send(Job::get_dir_entries(Path::from_str(root))).unwrap();
    let shared = Arc::new(Shared {
        busy_workers: AtomicU32::new(0),
        num_of_workers: AtomicU32::new(0),
    });
    let pool: Vec<Worker> = (0..workers)
        .map(|id| {
            let buf = vec![0u64; 4096];
            Worker::new(Arc::clone(&shared), buf, s.clone(), r.clone(), b".png".to_vec(), id)
        })
        .collect();
    let outcomes: Vec<Outcome> = pool.into_iter().map(|w| work(w, tree)).collect();
    let mut files = BTreeSet::new();
    let mut initiators = 0;
    for o in outcomes {
        if o.initiated {
            initiators += 1;
        }
        for p in o.files {
            files.insert(String::from_utf8(p.to_bytes().to_vec()).unwrap());
        }
    }
    Run {
        files,
        initiators,
        queue_empty: r.is_empty() && s.is_empty(),
        busy: shared.busy_workers.load(Ordering::SeqCst),
        expanded: tree.expanded.load(Ordering::SeqCst),
    }
}

fn example_tree() -> Arc<Tree> {
    tree(&[
        (b"/root/", &[(DIR, b"a"), (DIR, b"b")]),
        (b"/root/a/", &[(REG, b"file.png"), (REG, b"note.txt")]),
        (b"/root/b/", &[(DIR, b"sub")]),
        (b"/root/b/sub/", &[(REG, b"file2.PNG")]),
    ])
}

fn set(paths: &[&str]) -> BTreeSet<String> {
    paths.iter().map(|p| p.to_string()).collect()
}

#[test]
fn the_example_tree_yields_only_the_lower_case_png() {
    let run = crawl(&example_tree(), "/root/");
    assert_eq!(run.files, set(&["/root/a/file.png"]));
    assert_eq!(run.initiators, 1);
    assert!(run.queue_empty);
    assert_eq!(run.busy, 0);
}

#[test]
fn every_directory_of_the_tree_is_expanded_once() {
    let run = crawl(&example_tree(), "/root/");
    assert_eq!(run.expanded, 4);
}

#[test]
fn an_empty_root_yields_nothing_and_terminates() {
    let t = tree(&[(b"/root/", &[])]);
    let run = crawl(&t, "/root/");
    assert!(run.files.is_empty());
    assert_eq!(run.initiators, 1);
    assert!(run.queue_empty);
    assert_eq!(run.busy, 0);
    assert_eq!(run.expanded, 1);
}

#[test]
fn a_root_that_cannot_be_opened_yields_nothing_and_terminates() {
    let t = tree(&[(b"/root/", &[(REG, b"x.png")])]);
    let run = crawl(&t, "/missing/");
    assert!(run.files.is_empty());
    assert_eq!(run.initiators, 1);
    assert!(run.queue_empty);
    assert_eq!(run.expanded, 0);
}

#[test]
fn a_subtree_that_cannot_be_opened_is_passed_over() {
    let t = tree(&[
        (b"/root/", &[(DIR, b"locked"), (DIR, b"open"), (REG, b"top.png")]),
        (b"/root/open/", &[(REG, b"in.png")]),
    ]);
    let run = crawl(&t, "/root/");
    assert_eq!(run.files, set(&["/root/open/in.png", "/root/top.png"]));
    assert_eq!(run.expanded, 2);
}

#[test]
fn a_symbolic_link_to_a_directory_is_not_descended_into() {
    let t = tree(&[
        (b"/root/", &[(LNK, b"link"), (DIR, b"real")]),
        (b"/root/real/", &[(REG, b"a.png")]),
        (b"/root/link/", &[(REG, b"never.png")]),
    ]);
    let run = crawl(&t, "/root/");
    assert_eq!(run.files, set(&["/root/real/a.png"]));
    assert_eq!(run.expanded, 2);
}

#[test]
fn a_deep_and_wide_tree_is_walked_completely_by_one_worker() {
    let t = tree(&[
        (b"/", &[(DIR, b"a"), (DIR, b"b"), (DIR, b"c"), (REG, b"r.png")]),
        (b"/a/", &[(DIR, b"a"), (REG, b"1.png"), (REG, b"1.jpg")]),
        (b"/a/a/", &[(DIR, b"a"), (REG, b"2.png")]),
        (b"/a/a/a/", &[(REG, b"3.png"), (REG, b".png"), (REG, b"png")]),
        (b"/b/", &[]),
        (b"/c/", &[(DIR, b"d.png"), (REG, b"x.PNG")]),
        (b"/c/d.png/", &[(REG, b"deep.png")]),
    ]);
    let run = crawl(&t, "/");
    assert_eq!(
        run.files,
        set(&[
            "/a/1.png",
            "/a/a/2.png",
            "/a/a/a/.png",
            "/a/a/a/3.png",
            "/c/d.png/deep.png",
            "/r.png"
        ])
    );
    assert_eq!(run.expanded, 7);
    assert_eq!(run.initiators, 1);
    assert!(run.queue_empty);
    assert_eq!(run.busy, 0);
}

/// Runs the crawl with a pool of `workers` on one thread. As long as jobs
/// wait, the workers take them in turn. Once the queue is empty, all workers
/// but one are taken to wait for a job: the counter is changed for them as
/// a worker changes it before and after its wait.
fn crawl_in_turns(tree: &Arc<Tree>, root: &str, workers: usize) -> (Run, Vec<usize>) {
    tree.expanded.store(0, Ordering::SeqCst);
    let (s, r) = unbounded();
    s.send(Job::get_dir_entries(Path::from_str(root))).unwrap();
    let shared = Arc::new(Shared {
        busy_workers: AtomicU32::new(0),
        num_of_workers: AtomicU32::new(0),
    });
    let mut pool: Vec<Worker> = (0..workers)
        .map(|id| {
            let buf = vec![0u64; 4096];
            let suffix = b".png".to_vec();
            Worker::new(Arc::clone(&shared), buf, s.clone(), r.clone(), suffix, id as u32)
        })
        .collect();
    for w in pool.iter_mut() {
        w.register();
    }

    let mut turn = 0;
    while !r.is_empty() {
        let w = &mut pool[turn % workers];
        match step_for(w.wait_for_job().expect("channel disconnected")) {
            Step::Stop { .. } => panic!("no worker is to stop while jobs wait"),
            Step::Expand { path } => {
                if let Some(b) = tree.dirs.get(path.to_bytes()) {
                    tree.expanded.fetch_add(1, Ordering::SeqCst);
                    w.dirent_buf[..b.len()].copy_from_slice(b);
                    w.expand(path, Ok((b.len() * 8) as isize)).expect("sound batch");
                } else {
                    w.expand(path, Err(OpenError::NotFound)).expect("passed over");
                }
            }
        }
        turn += 1;
    }

    // All workers but the last step down and wait.
    for _ in 1..workers {
        shared.busy_workers.fetch_sub(1, Ordering::SeqCst);
    }
    let mut last = pool.pop().unwrap();
    let found_no_work = last.wait_for_job().expect("channel disconnected").is_none();
    assert!(found_no_work);
    let mut initiators = 1;
    let mut files = BTreeSet::new();
    for p in last.finish(true).0.expect("channel disconnected") {
        files.insert(String::from_utf8(p.to_bytes().to_vec()).unwrap());
    }

    // Each waiting worker is woken by what it finds in the queue.
    let mut stops = Vec::new();
    for mut w in pool {
        shared.busy_workers.fetch_add(1, Ordering::SeqCst);
        let mut received = 0;
        let initiated = match step_for(w.wait_for_job().expect("channel disconnected")) {
            Step::Stop { initiate_shutdown } => {
                received += 1;
                initiate_shutdown
            }
            Step::Expand { .. } => panic!("no directory is left"),
        };
        if initiated {
            initiators += 1;
        }
        stops.push(received);
        for p in w.finish(initiated).0.expect("channel disconnected") {
            files.insert(String::from_utf8(p.to_bytes().to_vec()).unwrap());
        }
    }
    let run = Run {
        files,
        initiators,
        queue_empty: r.is_empty() && s.is_empty(),
        busy: shared.busy_workers.load(Ordering::SeqCst),
        expanded: tree.expanded.load(Ordering::SeqCst),
    };
    (run, stops)
}

fn wide_tree() -> Arc<Tree> {
    tree(&[
        (b"/", &[(DIR, b"a"), (DIR, b"b"), (DIR, b"c"), (REG, b"r.png")]),
        (b"/a/", &[(DIR, b"a"), (REG, b"1.png"), (REG, b"1.jpg")]),
        (b"/a/a/", &[(DIR, b"a"), (REG, b"2.png")]),
        (b"/a/a/a/", &[(REG, b"3.png")]),
        (b"/b/", &[(LNK, b"up"), (REG, b"4.png")]),
        (b"/c/", &[(DIR, b"d"), (DIR, b"e"), (REG, b"x.PNG")]),
        (b"/c/d/", &[(REG, b"5.png")]),
        (b"/c/e/", &[]),
    ])
}

#[test]
fn the_reported_files_do_not_depend_on_the_size_of_the_pool() {
    let t = wide_tree();
    let expected = set(&["/a/1.png", "/a/a/2.png", "/a/a/a/3.png", "/b/4.png", "/c/d/5.png", "/r.png"]);
    assert_eq!(crawl(&t, "/").files, expected);
    for workers in [1usize, 2, 4, 8] {
        let (run, _) = crawl_in_turns(&t, "/", workers);
        assert_eq!(run.files, expected, "{} workers", workers);
    }
}

#[test]
fn every_directory_is_expanded_once_whatever_the_size_of_the_pool() {
    let t = wide_tree();
    for workers in [1usize, 2, 4, 8] {
        let (run, _) = crawl_in_turns(&t, "/", workers);
        assert_eq!(run.expanded, 8, "{} workers", workers);
    }
}

#[test]
fn every_worker_but_the_terminator_gets_one_order_to_stop() {
    let t = wide_tree();
    for workers in [1usize, 2, 4, 8] {
        let (run, stops) = crawl_in_turns(&t, "/", workers);
        assert_eq!(run.initiators, 1, "{} workers", workers);
        assert_eq!(stops, vec![1; workers - 1], "{} workers", workers);
        assert!(run.queue_empty, "{} workers", workers);
        assert_eq!(run.busy, 0, "{} workers", workers);
    }
}

#[test]
fn the_example_tree_yields_the_same_for_any_pool_size() {
    for workers in [1usize, 2, 4, 8] {
        let (run, _) = crawl_in_turns(&example_tree(), "/root/", workers);
        assert_eq!(run.files, set(&["/root/a/file.png"]));
        assert_eq!(run.expanded, 4);
    }
}

#[test]
fn an_empty_root_terminates_for_any_pool_size() {
    let t = tree(&[(b"/root/", &[])]);
    for workers in [1usize, 2, 4, 8] {
        let (run, stops) = crawl_in_turns(&t, "/root/", workers);
        assert!(run.files.is_empty());
        assert_eq!(run.initiators, 1);
        assert_eq!(stops.len(), workers - 1);
        assert!(run.queue_empty);
        assert_eq!(run.busy, 0);
    }
}

use std::collections::HashMap;
use std::io;

use fs_tree::{Action, Error, Event, FsTree, FsTreeBuilder};

#[derive(Clone)]
enum Node {
    File,
    Dir(Vec<&'static str>),
    Unreadable,
    Symlink,
    /// A directory whose listing fails after its entries.
    Broken(Vec<&'static str>),
}

struct Handle {
    path: String,
    children: Vec<&'static str>,
    next: usize,
    fails: bool,
}

#[derive(Debug, PartialEq)]
enum Out {
    Path(String),
    Fail(String, io::ErrorKind),
}

fn sample() -> HashMap<String, Node> {
    let mut fs = HashMap::new();
    fs.insert("/T".to_string(), Node::Dir(vec!["a", "b", "link"]));
    fs.insert("/T/a".to_string(), Node::File);
    fs.insert("/T/b".to_string(), Node::Dir(vec!["c", "d"]));
    fs.insert("/T/b/c".to_string(), Node::File);
    fs.insert("/T/b/d".to_string(), Node::Dir(vec!["e"]));
    fs.insert("/T/b/d/e".to_string(), Node::File);
    fs.insert("/T/link".to_string(), Node::Symlink);
    fs
}

/// Runs the walk to its end against `fs`, checking on every step that the
/// handles held, once the requested action is carried out, match the walk's
/// depth; then draws `extra` more times.
fn run_with(tree: &mut FsTree, fs: &HashMap<String, Node>, extra: usize) -> (Vec<Out>, usize) {
    let mut handles: Vec<Handle> = Vec::new();
    let mut out = Vec::new();
    let mut ev = Event::Draw;
    let mut finishes = 0;
    loop {
        assert!(tree.expects(&ev));
        let act = tree.step(ev);
        let closing = matches!(act, Action::CloseTop) as usize;
        assert_eq!(handles.len() - closing, tree.depth());
        ev = match act {
            Action::OpenDir(p) => match fs.get(&p) {
                Some(Node::Dir(c)) => {
                    handles.push(Handle { path: p, children: c.clone(), next: 0, fails: false });
                    Event::Opened
                }
                Some(Node::Broken(c)) => {
                    handles.push(Handle { path: p, children: c.clone(), next: 0, fails: true });
                    Event::Opened
                }
                Some(_) => Event::OpenFailed(io::Error::new(io::ErrorKind::PermissionDenied, "denied")),
                None => Event::OpenFailed(io::Error::new(io::ErrorKind::NotFound, "missing")),
            },
            Action::ReadTop => {
                let h = handles.last_mut().unwrap();
                if h.next < h.children.len() {
                    h.next += 1;
                    Event::Entry(format!("{}/{}", h.path, h.children[h.next - 1]))
                } else if h.fails {
                    h.fails = false;
                    Event::ReadFailed(io::Error::new(io::ErrorKind::Other, "read"))
                } else {
                    Event::Exhausted
                }
            }
            Action::Inspect(p) => match fs.get(&p) {
                Some(Node::Symlink) => Event::Metadata { is_symlink: true, is_dir: false },
                Some(Node::File) => Event::Metadata { is_symlink: false, is_dir: false },
                Some(_) => Event::Metadata { is_symlink: false, is_dir: true },
                None => Event::MetadataFailed(io::Error::new(io::ErrorKind::NotFound, "gone")),
            },
            Action::CloseTop => {
                handles.pop().unwrap();
                Event::Closed
            }
            Action::Yield(item) => {
                out.push(match item {
                    Ok(p) => Out::Path(p),
                    Err(e) => {
                        let kind = e.source().kind();
                        Out::Fail(e.path().to_string(), kind)
                    }
                });
                Event::Draw
            }
            Action::Finish => {
                finishes += 1;
                if finishes > extra {
                    break;
                }
                Event::Draw
            }
        };
    }
    (out, finishes)
}

fn run(tree: FsTree, fs: &HashMap<String, Node>) -> Vec<Out> {
    let mut tree = tree;
    run_with(&mut tree, fs, 0).0
}

fn paths(v: &[&str]) -> Vec<Out> {
    v.iter().map(|p| Out::Path(p.to_string())).collect()
}

#[test]
fn defaults_walk_whole_tree() {
    let out = run(FsTreeBuilder::new("/T").build(), &sample());
    assert_eq!(out, paths(&["/T", "/T/a", "/T/b", "/T/b/c", "/T/b/d", "/T/b/d/e", "/T/link"]));
}

#[test]
fn max_depth_one_stops_at_children() {
    let out = run(FsTreeBuilder::new("/T").max_depth(1).build(), &sample());
    assert_eq!(out, paths(&["/T", "/T/a", "/T/b", "/T/link"]));
}

#[test]
fn min_depth_one_hides_root() {
    let out = run(FsTreeBuilder::new("/T").min_depth(1).build(), &sample());
    assert_eq!(out, paths(&["/T/a", "/T/b", "/T/b/c", "/T/b/d", "/T/b/d/e", "/T/link"]));
}

#[test]
fn min_depth_two_walks_through_shallow_dirs() {
    let out = run(FsTreeBuilder::new("/T").min_depth(2).build(), &sample());
    assert_eq!(out, paths(&["/T/b/c", "/T/b/d", "/T/b/d/e"]));
}

#[test]
fn depth_window_of_two() {
    let out = run(FsTreeBuilder::new("/T").min_depth(2).max_depth(2).build(), &sample());
    assert_eq!(out, paths(&["/T/b/c", "/T/b/d"]));
}

#[test]
fn ignore_files_hides_subtree() {
    let out = run(FsTreeBuilder::new("/T").ignore_files(&["/T/b"]).build(), &sample());
    assert_eq!(out, paths(&["/T", "/T/a", "/T/link"]));
}

#[test]
fn ignore_paths_keeps_dir_but_not_contents() {
    let out = run(FsTreeBuilder::new("/T").ignore_paths(&["/T/b"]).build(), &sample());
    assert_eq!(out, paths(&["/T", "/T/a", "/T/b", "/T/link"]));
}

#[test]
fn ignored_root_is_still_walked() {
    let out = run(FsTreeBuilder::new("/T").ignore_files(&["/T"]).max_depth(1).build(), &sample());
    assert_eq!(out, paths(&["/T/a", "/T/b", "/T/link"]));
}

#[test]
fn ignore_paths_on_root_does_not_stop_descent() {
    let out = run(FsTreeBuilder::new("/T").ignore_paths(&["/T"]).max_depth(1).build(), &sample());
    assert_eq!(out, paths(&["/T", "/T/a", "/T/b", "/T/link"]));
}

#[test]
fn unreadable_subdir_reported_after_entry() {
    let mut fs = sample();
    fs.insert("/T/b/d".to_string(), Node::Unreadable);
    let out = run(FsTreeBuilder::new("/T").build(), &fs);
    let mut want = paths(&["/T", "/T/a", "/T/b", "/T/b/c", "/T/b/d"]);
    want.push(Out::Fail("/T/b/d".to_string(), io::ErrorKind::PermissionDenied));
    want.push(Out::Path("/T/link".to_string()));
    assert_eq!(out, want);
}

#[test]
fn unreadable_subdir_above_min_depth_reports_only_failure() {
    let mut fs = sample();
    fs.insert("/T/b".to_string(), Node::Unreadable);
    let out = run(FsTreeBuilder::new("/T").min_depth(2).build(), &fs);
    assert_eq!(out, vec![Out::Fail("/T/b".to_string(), io::ErrorKind::PermissionDenied)]);
}

#[test]
fn missing_root_reports_error_then_ends() {
    let mut tree = FsTreeBuilder::new("/nope").build();
    let (out, finishes) = run_with(&mut tree, &sample(), 3);
    assert_eq!(out, vec![Out::Fail("/nope".to_string(), io::ErrorKind::NotFound)]);
    assert_eq!(finishes, 4);
}

#[test]
fn end_repeats_after_walk() {
    let mut tree = FsTreeBuilder::new("/T").max_depth(1).build();
    let (out, finishes) = run_with(&mut tree, &sample(), 5);
    assert_eq!(out.len(), 4);
    assert_eq!(finishes, 6);
    assert_eq!(tree.depth(), 0);
}

#[test]
fn max_depth_zero_yields_only_root() {
    let out = run(FsTreeBuilder::new("/T").max_depth(0).build(), &sample());
    assert_eq!(out, paths(&["/T"]));
}

#[test]
fn max_depth_zero_with_min_depth_yields_nothing() {
    let out = run(FsTreeBuilder::new("/T").max_depth(0).min_depth(1).build(), &sample());
    assert_eq!(out, paths(&[]));
}

#[test]
fn max_depth_zero_with_ignored_root_yields_nothing() {
    let out = run(FsTreeBuilder::new("/T").max_depth(0).ignore_files(&["/T"]).build(), &sample());
    assert_eq!(out, paths(&[]));
}

#[test]
fn symlink_to_dir_is_leaf() {
    let mut fs = HashMap::new();
    fs.insert("/R".to_string(), Node::Dir(vec!["l"]));
    fs.insert("/R/l".to_string(), Node::Symlink);
    let out = run(FsTreeBuilder::new("/R").build(), &fs);
    assert_eq!(out, paths(&["/R", "/R/l"]));
}

#[test]
fn read_failure_names_directory() {
    let mut fs = sample();
    fs.insert("/T/b".to_string(), Node::Broken(vec!["c"]));
    let out = run(FsTreeBuilder::new("/T").build(), &fs);
    let mut want = paths(&["/T", "/T/a", "/T/b", "/T/b/c"]);
    want.push(Out::Fail("/T/b".to_string(), io::ErrorKind::Other));
    want.push(Out::Path("/T/link".to_string()));
    assert_eq!(out, want);
}

#[test]
fn metadata_failure_names_entry() {
    let mut fs = sample();
    fs.insert("/T".to_string(), Node::Dir(vec!["a", "ghost"]));
    let out = run(FsTreeBuilder::new("/T").build(), &fs);
    let mut want = paths(&["/T", "/T/a"]);
    want.push(Out::Fail("/T/ghost".to_string(), io::ErrorKind::NotFound));
    assert_eq!(out, want);
}

#[test]
fn parents_come_before_children() {
    let out = run(FsTreeBuilder::new("/T").build(), &sample());
    let seen: Vec<String> = out
        .iter()
        .map(|o| match o {
            Out::Path(p) => p.clone(),
            Out::Fail(p, _) => p.clone(),
        })
        .collect();
    for (i, p) in seen.iter().enumerate() {
        if p != "/T" {
            let parent = &p[..p.rfind('/').unwrap()];
            assert!(seen[..i].iter().any(|q| q == parent));
        }
    }
}

#[test]
fn same_inputs_same_walk() {
    let a = run(FsTreeBuilder::new("/T").min_depth(1).build(), &sample());
    let b = run(FsTreeBuilder::new("/T").min_depth(1).build(), &sample());
    assert_eq!(a, b);
}

#[test]
fn only_draw_is_expected_before_start() {
    let tree = FsTreeBuilder::new("/T").build();
    assert!(tree.expects(&Event::Draw));
    assert!(!tree.expects(&Event::Opened));
    assert!(!tree.expects(&Event::Closed));
}

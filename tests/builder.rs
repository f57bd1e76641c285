use std::io;

use fs_tree::{Error, FsTreeBuilder};

#[test]
fn builder_defaults() {
    let tree = FsTreeBuilder::new("/var").build();
    assert_eq!(tree.top(), "/var");
    assert_eq!(tree.max_depth(), None);
    assert_eq!(tree.min_depth(), 0);
    assert_eq!(tree.depth(), 0);
    assert!(!tree.ignore_file(&"/var/log".to_string()));
    assert!(!tree.ignore_path(&"/var/log".to_string()));
}

#[test]
fn builder_chained_options() {
    let tree = FsTreeBuilder::new("/var")
        .max_depth(3)
        .min_depth(1)
        .ignore_files(&["/var/log/lastlog", "/var/tmp"])
        .ignore_paths(&["/var/cache"])
        .build();
    assert_eq!(tree.max_depth(), Some(3));
    assert_eq!(tree.min_depth(), 1);
    assert!(tree.ignore_file(&"/var/log/lastlog".to_string()));
    assert!(tree.ignore_file(&"/var/tmp".to_string()));
    assert!(!tree.ignore_file(&"/var/cache".to_string()));
    assert!(tree.ignore_path(&"/var/cache".to_string()));
    assert!(!tree.ignore_path(&"/var/tmp".to_string()));
}

#[test]
fn builder_setters_in_place() {
    let mut b = FsTreeBuilder::new("/srv");
    b.set_max_depth(2);
    b.set_min_depth(4);
    b.set_ignore_files(&["/srv/a"]);
    b.set_ignore_paths(&["/srv/b"]);
    let tree = b.build();
    assert_eq!(tree.max_depth(), Some(2));
    assert_eq!(tree.min_depth(), 4);
    assert!(tree.ignore_file(&"/srv/a".to_string()));
    assert!(tree.ignore_path(&"/srv/b".to_string()));
    assert!(!tree.ignore_file(&"/srv/b".to_string()));
}

#[test]
fn builder_replaces_lists() {
    let tree = FsTreeBuilder::new("/srv")
        .ignore_files(&["/srv/a"])
        .ignore_files(&["/srv/c"])
        .build();
    assert!(!tree.ignore_file(&"/srv/a".to_string()));
    assert!(tree.ignore_file(&"/srv/c".to_string()));
}

#[test]
fn error_keeps_path_and_cause() {
    let e = Error::new("/x/y", io::Error::new(io::ErrorKind::PermissionDenied, "denied"));
    assert_eq!(e.path(), "/x/y");
    assert_eq!(e.source().kind(), io::ErrorKind::PermissionDenied);
    let (p, cause) = e.into_parts();
    assert_eq!(p, "/x/y");
    assert_eq!(cause.to_string(), "denied");
}

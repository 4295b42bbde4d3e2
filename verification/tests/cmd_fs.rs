use shell::cmd::fs::DirListing;
use shell::cmd::fs::all_executable_names;
use shell::cmd::fs::basename;
use shell::cmd::fs::filename;
use shell::cmd::fs::list_dirs;

#[test]
fn it_split_into_directories() {
    let input = "";
    let fs: Vec<DirListing> = vec![];
    let dirs = list_dirs(input, &fs);
    assert!(dirs.is_empty());
}

#[test]
fn list_dirs_keeps_only_existing_directories() {
    let fs = vec![
        DirListing { path: "/a".to_string(), files: vec![] },
        DirListing { path: "/c".to_string(), files: vec![] },
    ];
    let dirs = list_dirs("/a:/b:/c", &fs);
    assert_eq!(dirs, vec!["/a".to_string(), "/c".to_string()]);
}

#[test]
fn basename_takes_what_follows_the_last_slash() {
    assert_eq!(basename("/usr/bin/foo"), "foo");
    assert_eq!(basename("foo"), "foo");
    assert_eq!(basename("/foo/"), "");
    assert!(filename("foo", "/usr/bin/foo"));
    assert!(!filename("foo", "/usr/bin/foobar"));
}

#[test]
fn executable_names_come_in_search_order() {
    let fs = vec![
        DirListing {
            path: "/a".to_string(),
            files: vec!["/a/foo".to_string(), "/a/bar".to_string()],
        },
        DirListing { path: "/b".to_string(), files: vec!["/b/baz".to_string()] },
    ];
    let names = all_executable_names("/a:/b", &fs);
    assert_eq!(names, vec!["foo".to_string(), "bar".to_string(), "baz".to_string()]);
    let names = all_executable_names("", &fs);
    assert!(names.is_empty());
}

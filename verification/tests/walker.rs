use dirsearch::diagnostic::{Diagnostic, Emission, SetupError};
use dirsearch::filter::{Facts, FileKind, FilterType};
use dirsearch::visit::Located;
use dirsearch::walker::{configure, Walker, WorkItem};

fn at(parent: &str, name: &str) -> Located {
    Located { path: format!("{parent}/{name}"), parent: parent.to_string(), name: name.to_string() }
}

fn visit(parent: &str, name: &str) -> WorkItem {
    WorkItem::Visit(at(parent, name))
}

#[test]
fn work_for_a_readable_name_is_a_visit() {
    assert_eq!(
        WorkItem::named("/top/one".to_string(), "/top".to_string(), "one".to_string()),
        visit("/top", "one")
    );
}

#[test]
fn work_for_a_path_without_a_name_is_a_report() {
    let item = WorkItem::unnamed("\"..\"".to_string());
    assert_eq!(item, WorkItem::Report(Diagnostic::MissingName { path: "\"..\"".to_string() }));
    match item {
        WorkItem::Report(problem) => {
            assert_eq!(problem.message(), "Can't read file name for path '\"..\"'")
        }
        WorkItem::Visit(_) => panic!("a path without a name must not be visited"),
    }
}

#[test]
fn work_for_an_undecodable_name_is_a_report() {
    let item = WorkItem::undecodable("\"a\\xFF\"".to_string());
    assert_eq!(
        item,
        WorkItem::Report(Diagnostic::UndecodableName { name: "\"a\\xFF\"".to_string() })
    );
}

#[test]
fn work_for_a_failed_step_reports_the_directory_and_the_cause() {
    let item = WorkItem::failed_step(&at("/mnt", "flaky"), "Input/output error".to_string());
    assert_eq!(
        item,
        WorkItem::Report(Diagnostic::Iteration {
            path: "/mnt/flaky".to_string(),
            cause: "Input/output error".to_string()
        })
    );
    match item {
        WorkItem::Report(problem) => {
            assert_eq!(problem.message(), "Can't iterate over '/mnt/flaky': Input/output error")
        }
        WorkItem::Visit(_) => panic!("a failed step must not be visited"),
    }
}

#[test]
fn missing_root_does_not_start_a_walk() {
    let config = configure("/no/such".to_string(), "a", FilterType::Any, true).unwrap();
    match Walker::begin(config, Ok(false), visit("/no", "such")) {
        Err(error) => {
            assert_eq!(error, SetupError::MissingRoot { dir: "/no/such".to_string() });
            assert_eq!(error.message(), "/no/such directory doesn't exist");
        }
        Ok(_) => panic!("a walk started at a root that does not exist"),
    }
}

#[test]
fn unreadable_root_does_not_start_a_walk() {
    let config = configure("/locked/in".to_string(), "a", FilterType::Any, true).unwrap();
    let failure = Err("Permission denied (os error 13)".to_string());
    match Walker::begin(config, failure, visit("/locked", "in")) {
        Err(error) => {
            assert_eq!(
                error,
                SetupError::UnreadableRoot {
                    dir: "/locked/in".to_string(),
                    cause: "Permission denied (os error 13)".to_string()
                }
            );
            assert_eq!(error.message(), "Can't open /locked/in: Permission denied (os error 13)");
        }
        Ok(_) => panic!("a walk started at a root that could not be checked"),
    }
}

#[test]
fn existing_root_is_the_first_item() {
    let config = configure("/srv".to_string(), "a", FilterType::Any, true).unwrap();
    let mut walker = Walker::begin(config, Ok(true), visit("/", "srv")).ok().unwrap();
    assert_eq!(walker.next(), Some(visit("/", "srv")));
    assert_eq!(walker.next(), None);
    assert_eq!(walker.next(), None);
}

#[test]
fn listing_is_walked_in_its_order_before_older_work() {
    let config = configure("top".to_string(), "a", FilterType::Any, true).unwrap();
    let mut walker = Walker::new(config, visit("", "top"));
    let top = at("", "top");
    assert_eq!(walker.next(), Some(visit("", "top")));
    let listing = vec![
        visit("/top", "one"),
        WorkItem::Report(Diagnostic::UndecodableName { name: "\"\\xFF\"".to_string() }),
        visit("/top", "two"),
    ];
    assert_eq!(walker.listed(&top, Ok(listing)), None);
    assert_eq!(walker.next(), Some(visit("/top", "one")));
    let inner = vec![visit("/top/one", "deep"), visit("/top/one", "deeper")];
    assert_eq!(walker.listed(&at("/top", "one"), Ok(inner)), None);
    assert_eq!(walker.next(), Some(visit("/top/one", "deep")));
    assert_eq!(walker.next(), Some(visit("/top/one", "deeper")));
    assert_eq!(
        walker.next(),
        Some(WorkItem::Report(Diagnostic::UndecodableName { name: "\"\\xFF\"".to_string() }))
    );
    assert_eq!(walker.next(), Some(visit("/top", "two")));
    assert_eq!(walker.next(), None);
}

#[test]
fn empty_listing_adds_nothing() {
    let config = configure("top".to_string(), "a", FilterType::Any, true).unwrap();
    let mut walker = Walker::new(config, visit("", "top"));
    assert_eq!(walker.next(), Some(visit("", "top")));
    assert_eq!(walker.listed(&at("", "top"), Ok(Vec::new())), None);
    assert_eq!(walker.next(), None);
}

#[test]
fn failed_listing_is_reported_and_adds_nothing() {
    let config = configure("top".to_string(), "a", FilterType::Any, true).unwrap();
    let mut walker = Walker::new(config, visit("", "top"));
    assert_eq!(walker.next(), Some(visit("", "top")));
    assert_eq!(walker.listed(&at("", "top"), Ok(vec![visit("/top", "a"), visit("/top", "b")])), None);
    assert_eq!(walker.next(), Some(visit("/top", "a")));
    let problem = walker.listed(&at("/top", "a"), Err("Permission denied".to_string()));
    assert_eq!(
        problem,
        Some(Diagnostic::Listing { path: "/top/a".to_string(), cause: "Permission denied".to_string() })
    );
    assert_eq!(walker.next(), Some(visit("/top", "b")));
    assert_eq!(walker.next(), None);
}

#[test]
fn visit_holds_the_name_against_the_pattern() {
    let config = configure("top".to_string(), "\\.txt$", FilterType::Text, true).unwrap();
    let walker = Walker::new(config, visit("", "top"));
    let file = Facts { is_symlink: false, target: Ok(FileKind::Regular) };
    let verdict = walker.visit(&at("/top", "notes.txt"), &file);
    assert_eq!(verdict.emission, Some(Emission::Match("/top/notes\x1b[91m.txt\x1b[0m".to_string())));
    assert!(!verdict.descend);
    let verdict = walker.visit(&at("/top", "notes.txt.bak"), &file);
    assert_eq!(verdict.emission, None);
    assert!(!verdict.descend);
    // The pattern is held against the name, never against the parent.
    let verdict = walker.visit(&at("/top/x.txt", "notes"), &file);
    assert_eq!(verdict.emission, None);
    let dir = Facts { is_symlink: false, target: Ok(FileKind::Directory) };
    let verdict = walker.visit(&at("/top", "old.txt"), &dir);
    assert_eq!(verdict.emission, None);
    assert!(verdict.descend);
}

#[test]
fn visit_reports_a_failed_lookup_under_the_device_filter() {
    let config = configure("/dev".to_string(), "^sd", FilterType::Device, false).unwrap();
    let walker = Walker::new(config, visit("", "dev"));
    let gone = Facts { is_symlink: false, target: Err("Input/output error".to_string()) };
    let verdict = walker.visit(&at("/dev", "sdb"), &gone);
    assert_eq!(
        verdict.emission,
        Some(Emission::Problem(Diagnostic::Metadata {
            path: "/dev/sdb".to_string(),
            cause: "Input/output error".to_string()
        }))
    );
    let verdict = walker.visit(&at("/dev", "tty"), &gone);
    assert_eq!(verdict.emission, None);
    let disk = Facts { is_symlink: false, target: Ok(FileKind::BlockDevice) };
    let verdict = walker.visit(&at("/dev", "sdb"), &disk);
    assert_eq!(verdict.emission, Some(Emission::Match("/dev/sdb".to_string())));
}

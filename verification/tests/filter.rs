use dirsearch::filter::{should_descend, type_satisfies, Facts, FileKind, FilterType};

fn facts(is_symlink: bool, kind: FileKind) -> Facts {
    Facts { is_symlink, target: Ok(kind) }
}

fn unreadable(is_symlink: bool) -> Facts {
    Facts { is_symlink, target: Err("Permission denied (os error 13)".to_string()) }
}

#[test]
fn default_filter_is_any() {
    assert_eq!(FilterType::default(), FilterType::Any);
}

#[test]
fn any_accepts_every_type() {
    for kind in [
        FileKind::Regular,
        FileKind::Directory,
        FileKind::CharDevice,
        FileKind::BlockDevice,
        FileKind::Other,
    ] {
        assert!(type_satisfies(FilterType::Any, &facts(false, kind)));
        assert!(type_satisfies(FilterType::Any, &facts(true, kind)));
    }
    assert!(type_satisfies(FilterType::Any, &unreadable(false)));
    assert!(type_satisfies(FilterType::Any, &unreadable(true)));
}

#[test]
fn text_accepts_regular_files_only() {
    assert!(type_satisfies(FilterType::Text, &facts(false, FileKind::Regular)));
    assert!(!type_satisfies(FilterType::Text, &facts(false, FileKind::Directory)));
    assert!(!type_satisfies(FilterType::Text, &facts(false, FileKind::CharDevice)));
    assert!(!type_satisfies(FilterType::Text, &facts(false, FileKind::BlockDevice)));
    assert!(!type_satisfies(FilterType::Text, &facts(false, FileKind::Other)));
    assert!(!type_satisfies(FilterType::Text, &unreadable(false)));
}

#[test]
fn text_rejects_a_link_to_a_regular_file() {
    assert!(!type_satisfies(FilterType::Text, &facts(true, FileKind::Regular)));
    assert!(!type_satisfies(FilterType::Text, &facts(true, FileKind::Directory)));
    assert!(!type_satisfies(FilterType::Text, &unreadable(true)));
    // The same link passes where links are asked for, or anything.
    assert!(type_satisfies(FilterType::Symlink, &facts(true, FileKind::Regular)));
    assert!(type_satisfies(FilterType::Any, &facts(true, FileKind::Regular)));
}

#[test]
fn folder_accepts_directories_only() {
    assert!(type_satisfies(FilterType::Folder, &facts(false, FileKind::Directory)));
    assert!(type_satisfies(FilterType::Folder, &facts(true, FileKind::Directory)));
    assert!(!type_satisfies(FilterType::Folder, &facts(false, FileKind::Regular)));
    assert!(!type_satisfies(FilterType::Folder, &facts(false, FileKind::CharDevice)));
    assert!(!type_satisfies(FilterType::Folder, &facts(false, FileKind::Other)));
    assert!(!type_satisfies(FilterType::Folder, &unreadable(true)));
}

#[test]
fn symlink_accepts_links_only() {
    assert!(type_satisfies(FilterType::Symlink, &facts(true, FileKind::Regular)));
    assert!(type_satisfies(FilterType::Symlink, &facts(true, FileKind::Directory)));
    assert!(type_satisfies(FilterType::Symlink, &unreadable(true)));
    assert!(!type_satisfies(FilterType::Symlink, &facts(false, FileKind::Regular)));
    assert!(!type_satisfies(FilterType::Symlink, &facts(false, FileKind::Directory)));
    assert!(!type_satisfies(FilterType::Symlink, &unreadable(false)));
}

#[test]
fn device_accepts_char_and_block_devices_only() {
    assert!(type_satisfies(FilterType::Device, &facts(false, FileKind::CharDevice)));
    assert!(type_satisfies(FilterType::Device, &facts(false, FileKind::BlockDevice)));
    assert!(type_satisfies(FilterType::Device, &facts(true, FileKind::BlockDevice)));
    assert!(!type_satisfies(FilterType::Device, &facts(false, FileKind::Regular)));
    assert!(!type_satisfies(FilterType::Device, &facts(false, FileKind::Directory)));
    assert!(!type_satisfies(FilterType::Device, &facts(false, FileKind::Other)));
    assert!(!type_satisfies(FilterType::Device, &unreadable(false)));
}

#[test]
fn walk_descends_into_real_directories_only() {
    assert!(should_descend(&facts(false, FileKind::Directory)));
    assert!(!should_descend(&facts(true, FileKind::Directory)));
    assert!(!should_descend(&facts(false, FileKind::Regular)));
    assert!(!should_descend(&facts(false, FileKind::CharDevice)));
    assert!(!should_descend(&facts(false, FileKind::BlockDevice)));
    assert!(!should_descend(&facts(false, FileKind::Other)));
    assert!(!should_descend(&unreadable(false)));
    assert!(!should_descend(&unreadable(true)));
}

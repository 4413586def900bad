use launcher::config::base_directories;
use launcher::scan::has_desktop_extension;

fn b(s: &str) -> Vec<u8> {
    s.as_bytes().to_vec()
}

#[test]
fn desktop_extension_is_recognised() {
    assert!(has_desktop_extension(&b("/usr/share/applications/foo.desktop")));
    assert!(has_desktop_extension(&b("foo.desktop")));
    assert!(has_desktop_extension(&b("a/b/app.tar.desktop")));
}

#[test]
fn other_extensions_are_rejected() {
    assert!(!has_desktop_extension(&b("/usr/share/applications/foo.txt")));
    assert!(!has_desktop_extension(&b("foo")));
    assert!(!has_desktop_extension(&b("foo.desktop.bak")));
}

#[test]
fn hidden_file_without_stem_has_no_extension() {
    assert!(!has_desktop_extension(&b("/a/.desktop")));
}

#[test]
fn extension_belongs_to_the_file_name_only() {
    assert!(!has_desktop_extension(&b("dir.desktop/file")));
}

#[test]
fn default_base_directories() {
    let dirs = base_directories(None, None, None);
    assert_eq!(
        dirs,
        vec![
            b("/.local/share/applications"),
            b("/usr/local/share/applications"),
            b("/usr/share/applications"),
        ]
    );
}

#[test]
fn home_feeds_the_data_home_fallback() {
    let dirs = base_directories(None, Some(b("/home/u")), None);
    assert_eq!(dirs[0], b("/home/u/.local/share/applications"));
}

#[test]
fn explicit_data_home_wins_over_home() {
    let dirs = base_directories(Some(b("/dh")), Some(b("/home/u")), None);
    assert_eq!(dirs[0], b("/dh/applications"));
}

#[test]
fn data_dirs_are_split_at_colons() {
    let dirs = base_directories(Some(b("/dh")), None, Some(b("/a:/b/")));
    assert_eq!(
        dirs,
        vec![
            b("/dh/applications"),
            b("/a/applications"),
            b("/b/applications"),
        ]
    );
}

#[test]
fn empty_data_dirs_yield_one_relative_base() {
    let dirs = base_directories(Some(b("/dh")), None, Some(b("")));
    assert_eq!(dirs, vec![b("/dh/applications"), b("applications")]);
}

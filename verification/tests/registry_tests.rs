use launcher::choice::Action;
use launcher::choice::decide;
use launcher::launch::detached_command;
use launcher::registry::Registry;
use launcher::registry::parse_desktop_files;

fn b(s: &str) -> Vec<u8> {
    s.as_bytes().to_vec()
}

#[test]
fn identical_names_keep_one_entry() {
    let files = vec![
        b("Name=T\nExec=bin %f\n"),
        b("Name=T\nExec=bin %u\n"),
    ];
    let reg = parse_desktop_files(files);
    assert_eq!(reg.len(), 1);
    assert_eq!(reg.display_names(), vec![b("T (bin)")]);
}

#[test]
fn entry_count_is_number_of_distinct_names() {
    let files = vec![
        b("Name=A\nExec=a\n"),
        b("Name=B\nExec=b\n"),
        b("Name=A\nExec=a\n"),
    ];
    let reg = parse_desktop_files(files);
    assert_eq!(reg.len(), 2);
}

#[test]
fn malformed_files_are_skipped() {
    let files = vec![
        b("Name=OnlyName\n"),
        b("Exec=only-exec\n"),
        b("Name=Good\nExec=good-bin\n"),
    ];
    let reg = parse_desktop_files(files);
    assert_eq!(reg.len(), 1);
    assert_eq!(reg.display_names(), vec![b("Good (good-bin)")]);
}

#[test]
fn lookup_finds_the_command() {
    let files = vec![b("Name=App\nExec=app-bin %U\n")];
    let reg = parse_desktop_files(files);
    let got = reg.get(&b("App (app-bin)"));
    assert_eq!(got, Some(&b("app-bin")));
    assert_eq!(reg.get(&b("missing")), None);
}

#[test]
fn empty_registry_is_empty() {
    let reg = Registry::new();
    assert_eq!(reg.len(), 0);
    assert!(reg.display_names().is_empty());
}

#[test]
fn no_selection_takes_the_no_selection_branch() {
    let reg = parse_desktop_files(vec![b("Name=A\nExec=a\n")]);
    let act = decide(&reg, None);
    assert!(matches!(act, Action::NoSelection));
}

#[test]
fn unknown_selection_takes_the_no_cmd_branch() {
    let reg = parse_desktop_files(vec![b("Name=A\nExec=a\n")]);
    let act = decide(&reg, Some(b("B (b)")));
    assert!(matches!(act, Action::NoCmd));
}

#[test]
fn known_selection_launches_its_command() {
    let reg = parse_desktop_files(vec![b("Name=A\nExec=a-bin %f\n")]);
    let act = decide(&reg, Some(b("A (a-bin)")));
    match act {
        Action::Launch(cmd) => assert_eq!(cmd, b("a-bin")),
        _ => panic!("expected a launch"),
    }
}

#[test]
fn end_to_end_one_valid_one_malformed() {
    let files = vec![
        b("Name=Test\nExec=test-bin %f\n"),
        b("Name=Broken\n"),
    ];
    let reg = parse_desktop_files(files);
    let names = reg.display_names();
    assert_eq!(names, vec![b("Test (test-bin)")]);
    let act = decide(&reg, Some(names[0].clone()));
    match act {
        Action::Launch(cmd) => {
            assert_eq!(cmd, b("test-bin"));
            assert_eq!(
                detached_command(&cmd),
                b("setsid test-bin > /dev/null 2>&1 &")
            );
        },
        _ => panic!("expected a launch"),
    }
}

#[test]
fn detached_command_wraps_the_raw_command() {
    assert_eq!(
        detached_command(&b("firefox")),
        b("setsid firefox > /dev/null 2>&1 &")
    );
}

use launcher::entry::parse_desktop_file;
use launcher::placeholders::remove_placeholders;

fn b(s: &str) -> Vec<u8> {
    s.as_bytes().to_vec()
}

#[test]
fn missing_name_yields_no_entry() {
    let content = b("[Desktop Entry]\nExec=firefox %u\nType=Application\n");
    assert!(parse_desktop_file(&content).is_none());
}

#[test]
fn missing_exec_yields_no_entry() {
    let content = b("[Desktop Entry]\nName=Firefox\nType=Application\n");
    assert!(parse_desktop_file(&content).is_none());
}

#[test]
fn empty_content_yields_no_entry() {
    let content = b("");
    assert!(parse_desktop_file(&content).is_none());
}

#[test]
fn valid_entry_is_parsed() {
    let content = b("[Desktop Entry]\nName=Firefox\nExec=firefox %u\n");
    let de = parse_desktop_file(&content).unwrap();
    assert_eq!(de.name, b("Firefox (firefox)"));
    assert_eq!(de.command, b("firefox"));
}

#[test]
fn first_name_line_wins() {
    let content = b("Name=First\nName=Second\nExec=run\n");
    let de = parse_desktop_file(&content).unwrap();
    assert_eq!(de.name, b("First (run)"));
}

#[test]
fn first_exec_line_wins() {
    let content = b("Exec=one\nName=N\nExec=two\n");
    let de = parse_desktop_file(&content).unwrap();
    assert_eq!(de.command, b("one"));
}

#[test]
fn repeated_key_prefix_is_trimmed_fully() {
    let content = b("Name=Name=Deep\nExec=run\n");
    let de = parse_desktop_file(&content).unwrap();
    assert_eq!(de.name, b("Deep (run)"));
}

#[test]
fn carriage_returns_are_dropped() {
    let content = b("Name=App\r\nExec=app-bin\r\n");
    let de = parse_desktop_file(&content).unwrap();
    assert_eq!(de.name, b("App (app-bin)"));
    assert_eq!(de.command, b("app-bin"));
}

#[test]
fn last_line_without_terminator_counts() {
    let content = b("Name=App\nExec=app-bin");
    let de = parse_desktop_file(&content).unwrap();
    assert_eq!(de.command, b("app-bin"));
}

#[test]
fn empty_exec_value_gives_empty_parentheses() {
    let content = b("Name=X\nExec=\n");
    let de = parse_desktop_file(&content).unwrap();
    assert_eq!(de.name, b("X ()"));
    assert_eq!(de.command, b(""));
}

#[test]
fn placeholder_example_is_stripped() {
    let r = remove_placeholders(&b("firefox %u --new-window"));
    assert_eq!(r, b("firefox --new-window"));
}

#[test]
fn glued_placeholder_is_kept() {
    let r = remove_placeholders(&b("firefox%u"));
    assert_eq!(r, b("firefox%u"));
}

#[test]
fn all_eleven_placeholders_are_stripped() {
    let r = remove_placeholders(&b("x %f %F %u %U %d %D %n %N %i %c %k"));
    assert_eq!(r, b("x"));
}

#[test]
fn unknown_percent_sequences_are_kept() {
    let r = remove_placeholders(&b("app %x %%f"));
    assert_eq!(r, b("app %x %%f"));
}

#[test]
fn stripping_is_a_single_pass() {
    // Removing " %u" exposes a "%f" after a space; a single left-to-right
    // pass does not strip what its own removals bring together.
    let r = remove_placeholders(&b("  %u%f"));
    assert_eq!(r, b(" %f"));
}

#[test]
fn placeholders_inside_exec_lines_are_stripped() {
    let content = b("Name=Viewer\nExec=view %F --slow %k\n");
    let de = parse_desktop_file(&content).unwrap();
    assert_eq!(de.name, b("Viewer (view --slow)"));
    assert_eq!(de.command, b("view --slow"));
}

//! Descriptor filtering and launch-command construction, through the real
//! structured-entry parser and the real executable-resolution probe.

use xdg_terminals::descriptor::{parse_descriptor, passes_filter, passes_filter_with, Descriptor};
use xdg_terminals::launch::{build_command, candidate_command, passing_indices};

fn strings(items: &[&str]) -> Vec<String> {
    items.iter().map(|s| s.to_string()).collect()
}

fn bare() -> Descriptor {
    Descriptor {
        hidden: None,
        not_show_in: None,
        only_show_in: None,
        try_exec: None,
        exec_cmd: Some("foo-term".to_string()),
        exec_arg: None,
        x_exec_arg: None,
    }
}

#[test]
fn parse_descriptor_reads_desktop_entry_section() {
    let bytes = b"[Desktop Entry]\nName=Foo\nExec=foo-term --login\nHidden=true\nOnlyShowIn=GNOME;KDE;\n".to_vec();
    let d = parse_descriptor(&bytes).expect("descriptor should parse");
    assert_eq!(d.exec_cmd, Some("foo-term --login".to_string()));
    assert_eq!(d.hidden, Some("true".to_string()));
    assert_eq!(d.only_show_in, Some("GNOME;KDE;".to_string()));
    assert_eq!(d.not_show_in, None);
    assert_eq!(d.try_exec, None);
}

#[test]
fn hidden_true_rejected_unconditionally() {
    let mut d = bare();
    d.hidden = Some("true".to_string());
    d.only_show_in = Some("GNOME".to_string());
    assert!(!passes_filter_with(&d, &strings(&["GNOME"]), true));
    assert!(!passes_filter_with(&d, &strings(&[]), true));
}

#[test]
fn hidden_other_value_not_rejected() {
    let mut d = bare();
    d.hidden = Some("false".to_string());
    assert!(passes_filter_with(&d, &strings(&["GNOME"]), true));
}

#[test]
fn only_show_in_requires_a_current_desktop() {
    let mut d = bare();
    d.only_show_in = Some("GNOME;KDE".to_string());
    assert!(passes_filter_with(&d, &strings(&["GNOME"]), true));
    assert!(passes_filter_with(&d, &strings(&["X", "KDE"]), true));
    assert!(!passes_filter_with(&d, &strings(&["Unity"]), true));
    assert!(!passes_filter_with(&d, &strings(&[]), true));
}

#[test]
fn not_show_in_rejects_a_current_desktop() {
    let mut d = bare();
    d.not_show_in = Some("GNOME".to_string());
    assert!(!passes_filter_with(&d, &strings(&["GNOME"]), true));
    assert!(passes_filter_with(&d, &strings(&["KDE"]), true));
}

#[test]
fn matching_is_exact_and_case_sensitive() {
    let mut d = bare();
    d.only_show_in = Some("GNOME".to_string());
    assert!(!passes_filter_with(&d, &strings(&["gnome"]), true));
    assert!(!passes_filter_with(&d, &strings(&["GNOME2"]), true));
}

#[test]
fn try_exec_unresolvable_rejected() {
    let mut d = bare();
    d.try_exec = Some("nonexistent-binary-xyz".to_string());
    assert!(!passes_filter(&d, &strings(&["GNOME"])));
}

#[test]
fn try_exec_resolvable_accepted() {
    let mut d = bare();
    d.try_exec = Some("sh".to_string());
    assert!(passes_filter(&d, &strings(&["GNOME"])));
}

#[test]
fn command_embeds_arguments_after_flag() {
    let d = bare();
    let c = build_command(&d, &strings(&["vim", "file.txt"]));
    assert_eq!(c, Some("foo-term -e vim file.txt".to_string()));
}

#[test]
fn command_verbatim_without_arguments() {
    let d = bare();
    let c = build_command(&d, &strings(&[]));
    assert_eq!(c, Some("foo-term".to_string()));
}

#[test]
fn exec_arg_flag_precedence() {
    let mut d = bare();
    d.exec_arg = Some("-x".to_string());
    assert_eq!(
        build_command(&d, &strings(&["vim"])),
        Some("foo-term -x vim".to_string())
    );
    d.x_exec_arg = Some("--run".to_string());
    assert_eq!(
        build_command(&d, &strings(&["vim"])),
        Some("foo-term --run vim".to_string())
    );
}

#[test]
fn command_requires_exec() {
    let mut d = bare();
    d.exec_cmd = None;
    assert_eq!(build_command(&d, &strings(&["vim"])), None);
}

#[test]
fn candidate_command_end_to_end() {
    let bytes = b"[Desktop Entry]\nExec=foo-term\n".to_vec();
    let c = candidate_command(&bytes, &strings(&["GNOME"]), &strings(&["vim", "f.txt"]));
    assert_eq!(c, Some("foo-term -e vim f.txt".to_string()));

    let hidden = b"[Desktop Entry]\nExec=foo-term\nHidden=true\n".to_vec();
    assert_eq!(
        candidate_command(&hidden, &strings(&["GNOME"]), &strings(&[])),
        None
    );

    let no_exec = b"[Desktop Entry]\nName=Foo\n".to_vec();
    assert_eq!(
        candidate_command(&no_exec, &strings(&["GNOME"]), &strings(&[])),
        None
    );
}

#[test]
fn plan_attempts_passing_candidates_in_order() {
    let outcomes = vec![None, Some("b".to_string()), Some("c".to_string())];
    assert_eq!(passing_indices(&outcomes), vec![1usize, 2usize]);
}

#[test]
fn plan_empty_when_nothing_passes() {
    let outcomes: Vec<Option<String>> = vec![None, None, None];
    assert_eq!(passing_indices(&outcomes), Vec::<usize>::new());
    let none: Vec<Option<String>> = Vec::new();
    assert_eq!(passing_indices(&none), Vec::<usize>::new());
}

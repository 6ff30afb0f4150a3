//! Candidate resolution: desktop-id parsing, search-path construction,
//! preference-list reading, and the merged, deduplicated candidate sequence.

use xdg_terminals::candidates::{candidate_sequence, configured_entries, lines};
use xdg_terminals::desktop::desktop_id_list;
use xdg_terminals::errors::FatalError;
use xdg_terminals::paths::{config_file_names, config_paths};

fn strings(items: &[&str]) -> Vec<String> {
    items.iter().map(|s| s.to_string()).collect()
}

#[test]
fn desktop_ids_split_on_colon() {
    assert_eq!(desktop_id_list("GNOME:Unity"), strings(&["GNOME", "Unity"]));
    assert_eq!(desktop_id_list("KDE"), strings(&["KDE"]));
}

#[test]
fn desktop_ids_drop_empty_tokens() {
    assert_eq!(desktop_id_list(":GNOME::KDE:"), strings(&["GNOME", "KDE"]));
    assert_eq!(desktop_id_list(""), strings(&[]));
    assert_eq!(desktop_id_list(":::"), strings(&[]));
}

#[test]
fn desktop_ids_keep_case() {
    assert_eq!(desktop_id_list("gnome:GNOME"), strings(&["gnome", "GNOME"]));
}

#[test]
fn config_file_names_per_desktop_then_generic() {
    assert_eq!(
        config_file_names(&strings(&["GNOME", "KDE"])),
        strings(&["GNOME-terminals.list", "KDE-terminals.list", "terminals.list"])
    );
    assert_eq!(config_file_names(&strings(&[])), strings(&["terminals.list"]));
}

#[test]
fn config_paths_root_then_filename_order() {
    let dirs = strings(&["/home/u/.config", "/etc/xdg"]);
    let names = strings(&["GNOME-terminals.list", "terminals.list"]);
    assert_eq!(
        config_paths(&dirs, &names),
        strings(&[
            "/home/u/.config/GNOME-terminals.list",
            "/home/u/.config/terminals.list",
            "/etc/xdg/GNOME-terminals.list",
            "/etc/xdg/terminals.list",
        ])
    );
}

#[test]
fn lines_keep_blank_lines_verbatim() {
    assert_eq!(lines("a\nb\n"), strings(&["a", "b"]));
    assert_eq!(lines("a\r\n\nb"), strings(&["a", "", "b"]));
    assert_eq!(lines(""), strings(&[]));
    assert_eq!(lines("\n"), strings(&[""]));
}

#[test]
fn configured_entries_in_text_order() {
    let texts = strings(&["one.desktop\ntwo.desktop\n", "three.desktop\n"]);
    assert_eq!(
        configured_entries(&texts),
        strings(&["one.desktop", "two.desktop", "three.desktop"])
    );
}

#[test]
fn candidate_sequence_first_occurrence_wins() {
    let configured = strings(&["b.desktop", "a.desktop", "b.desktop"]);
    let present = strings(&["c.desktop", "a.desktop", "d.desktop"]);
    assert_eq!(
        candidate_sequence(&configured, &present),
        strings(&["b.desktop", "a.desktop", "c.desktop", "d.desktop"])
    );
}

#[test]
fn candidate_sequence_configured_precede_present() {
    let configured = strings(&["x.desktop"]);
    let present = strings(&["y.desktop", "x.desktop"]);
    assert_eq!(
        candidate_sequence(&configured, &present),
        strings(&["x.desktop", "y.desktop"])
    );
}

#[test]
fn fatal_error_messages() {
    assert_eq!(
        FatalError::MissingDesktopContext.message(),
        "XDG_CURRENT_DESKTOP is not set".to_string()
    );
    assert_eq!(
        FatalError::DirectoryConvention.message(),
        "base directories could not be resolved".to_string()
    );
    assert_eq!(
        FatalError::IoFailure.message(),
        "reading a configuration source failed".to_string()
    );
}

use kotoma::paths::{
    binary_needs_resolution, choose_log_dir, components_in, log_dirs, normalize_output_path,
    path_join, resolve_config_path,
};

#[test]
fn join_adds_one_separator() {
    assert_eq!(path_join("/home/u", "models/x"), "/home/u/models/x");
    assert_eq!(path_join("a/", "b"), "a/b");
    assert_eq!(path_join("", "b"), "b");
    assert_eq!(path_join("a", ""), "a/");
}

#[test]
fn join_with_absolute_path_replaces_base() {
    assert_eq!(path_join("a/b", "/abs"), "/abs");
}

#[test]
fn relative_config_path_resolves_against_config_dir() {
    assert_eq!(
        resolve_config_path("models/foo", "/home/u/.config/kotoma", Some("/home/u")),
        "/home/u/.config/kotoma/models/foo"
    );
    assert_eq!(resolve_config_path("m.bin", "", None), "m.bin");
}

#[test]
fn tilde_config_path_resolves_under_home() {
    assert_eq!(resolve_config_path("~/m.bin", "/cfg", Some("/home/u")), "/home/u/m.bin");
    assert_eq!(resolve_config_path("~/", "/cfg", Some("/home/u")), "/home/u/");
}

#[test]
fn tilde_config_path_without_home_stays_relative() {
    assert_eq!(resolve_config_path("~/m.bin", "/cfg", None), "/cfg/~/m.bin");
}

#[test]
fn absolute_config_path_is_kept() {
    assert_eq!(resolve_config_path("/abs/m", "/cfg", Some("/home/u")), "/abs/m");
}

#[test]
fn bare_binary_name_is_left_for_path_lookup() {
    assert!(!binary_needs_resolution("llama-server"));
    assert!(!binary_needs_resolution("llama-server/"));
    assert!(!binary_needs_resolution("~"));
}

#[test]
fn binary_with_a_directory_is_resolved() {
    assert!(binary_needs_resolution("./llama-server"));
    assert!(binary_needs_resolution("bin/llama-server"));
    assert!(binary_needs_resolution("/usr/bin/llama-server"));
    assert!(binary_needs_resolution("~/llama-server"));
}

#[test]
fn component_counts_follow_path_components() {
    assert_eq!(components_in("/a/b"), 3);
    assert_eq!(components_in("./a"), 2);
    assert_eq!(components_in("a/./b/"), 2);
    assert_eq!(components_in("a//b"), 2);
    assert_eq!(components_in("."), 1);
    assert_eq!(components_in("/"), 1);
    assert_eq!(components_in(""), 0);
    assert_eq!(components_in("../a"), 2);
}

#[test]
fn log_dir_prefers_the_kotoma_setting() {
    assert_eq!(choose_log_dir(Some("/x"), Some("/y"), Some("/h"), false, true), "/x");
}

#[test]
fn log_dir_falls_back_to_the_legacy_setting() {
    assert_eq!(choose_log_dir(None, Some("/y"), Some("/h"), true, false), "/y");
}

#[test]
fn log_dir_uses_legacy_directory_only_while_new_one_is_missing() {
    assert_eq!(choose_log_dir(None, None, Some("/h"), false, true), "/h/.config/livemd/logs");
    assert_eq!(choose_log_dir(None, None, Some("/h"), true, true), "/h/.config/kotoma/logs");
    assert_eq!(choose_log_dir(None, None, Some("/h"), false, false), "/h/.config/kotoma/logs");
}

#[test]
fn log_dir_without_home_is_working_directory() {
    assert_eq!(choose_log_dir(None, None, None, false, false), ".");
}

#[test]
fn log_dirs_under_home() {
    let (new_dir, legacy) = log_dirs("/home/u/");
    assert_eq!(new_dir, "/home/u/.config/kotoma/logs");
    assert_eq!(legacy, "/home/u/.config/livemd/logs");
}

#[test]
fn output_path_without_extension_gets_md() {
    assert_eq!(normalize_output_path("notes").ok().as_deref(), Some("notes.md"));
    assert_eq!(normalize_output_path("dir/notes/").ok().as_deref(), Some("dir/notes.md"));
    assert_eq!(normalize_output_path("a/.hidden").ok().as_deref(), Some("a/.hidden.md"));
    assert_eq!(normalize_output_path("a/b/.").ok().as_deref(), Some("a/b.md"));
}

#[test]
fn output_path_without_file_name_is_unchanged() {
    assert_eq!(normalize_output_path("").ok().as_deref(), Some(""));
    assert_eq!(normalize_output_path("a/..").ok().as_deref(), Some("a/.."));
}

#[test]
fn output_path_with_accepted_extension_is_kept() {
    assert_eq!(normalize_output_path("notes.MD").ok().as_deref(), Some("notes.MD"));
    assert_eq!(normalize_output_path("x/log.Txt").ok().as_deref(), Some("x/log.Txt"));
    assert_eq!(normalize_output_path("a.b/notes.markdown").ok().as_deref(), Some("a.b/notes.markdown"));
}

#[test]
fn output_path_with_other_extension_is_refused() {
    let err = normalize_output_path("notes.PDF").err().expect("refused");
    assert_eq!(err.lower, "pdf");
    assert_eq!(
        err.message(),
        "unsupported output extension: .pdf (allowed: .md, .markdown, .mdown, .mkd, .txt, .log)"
    );
    assert_eq!(normalize_output_path("notes.").err().map(|e| e.lower), Some(String::new()));
}

#[test]
fn normalized_output_path_is_stable() {
    let once = normalize_output_path("dir/notes").ok().expect("accepted");
    assert_eq!(normalize_output_path(&once).ok(), Some(once.clone()));
}

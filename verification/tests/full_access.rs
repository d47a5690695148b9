use unleashed_agent::paths::normalize_path;
use unleashed_agent::settings_content::{AgentSettingsContent, FullAccessSettingsContent};
use unleashed_agent::tool_permissions::FullAccessSettings;
use unleashed_agent::tools::full_access::{
    access_candidates, components_are_within, escape_gate, is_catastrophic_on_windows,
    is_catastrophic_path, is_inside_project, path_is_within, resolve_access, unresolved_path,
    FULL_ACCESS_DISABLED, PATH_ESCAPES,
};
use unleashed_agent::unleashed_setup::{
    add_root, confirm_changed_root, confirm_new_root, path_eq, remove_root, update_root,
    validate_absolute_path, RootEdit, RootKind, ALREADY_LISTED,
};

fn texts(items: &[&str]) -> Vec<String> {
    items.iter().map(|item| item.to_string()).collect()
}

fn settings(enabled: bool) -> FullAccessSettings {
    FullAccessSettings {
        enabled,
        allowed_roots: texts(&["/data/trusted"]),
        denied_roots: texts(&["/data/secret"]),
    }
}

fn allowed(settings: &AgentSettingsContent) -> Vec<String> {
    let access: &FullAccessSettingsContent = settings.full_access.as_ref().unwrap();
    access.allowed_roots.as_ref().unwrap().0.clone()
}

#[test]
fn path_containment_is_component_aware() {
    assert!(path_is_within("/home/person/project/src", "/home/person/project"));
    assert!(!path_is_within("/home/person/project-other", "/home/person/project"));
}

#[test]
fn catastrophic_roots_are_blocked() {
    assert!(is_catastrophic_path("/"));
    assert!(is_catastrophic_path("/usr/bin"));
    assert!(!is_catastrophic_path("/home/person/Documents"));
}

#[test]
fn detours_do_not_hide_a_root() {
    assert!(is_catastrophic_path("/home/../usr/bin/env"));
    assert!(is_catastrophic_path("/home"));
    assert!(!is_catastrophic_path("usr/bin"));
    assert!(path_is_within("/a/b/../b/c", "/a/b"));
}

#[test]
fn nothing_lies_beyond_the_root() {
    assert!(path_is_within("/../etc/a/b", "/etc"));
    assert!(path_is_within("/a/../../etc", "/etc"));
    assert!(path_is_within("/etc/x", "/../../etc"));
    assert!(is_catastrophic_path("/../etc/a/b"));
    assert!(is_catastrophic_path("/.."));
    assert!(is_catastrophic_path("/home/../../usr/local/bin"));
    assert!(!is_catastrophic_path("/../home/person/Documents"));
    assert!(!path_is_within("../etc", "etc"));
}

#[test]
fn normalized_paths_are_straight() {
    for (raw, normalized) in [
        ("/a//b/./c/../d/", "/a/b/d"),
        ("/../../a", "/a"),
        ("/", "/"),
        ("", ""),
        ("./a/..", ""),
        ("../x/../../y", "../../y"),
        ("a/..b/.", "a/..b"),
    ] {
        assert_eq!(normalize_path(raw), normalized);
        assert_eq!(normalize_path(normalized), normalized);
    }
}

#[test]
fn trusted_paths_pass_and_others_are_asked_about() {
    let worktrees = texts(&["/work/project"]);
    let on = settings(true);
    assert!(is_inside_project(&worktrees, &on, "/work/project/src"));
    assert_eq!(escape_gate(&worktrees, &on, &texts(&["/work/project/a"]), "run_code"), Ok(None));
    let context = escape_gate(
        &worktrees,
        &on,
        &texts(&["/data/trusted/x", "/home/me/./y"]),
        "run_code",
    )
    .unwrap()
    .unwrap();
    assert_eq!(context.tool_name, "run_code");
    assert_eq!(context.input_values, texts(&["/home/me/y"]));
}

#[test]
fn denied_paths_never_pass() {
    let worktrees = texts(&["/work/project"]);
    assert_eq!(
        escape_gate(&worktrees, &settings(true), &texts(&["/data/secret/k"]), "t"),
        Err("Blocked by LEAD's unbypassable full-access denylist: /data/secret/k".to_string())
    );
    assert_eq!(
        escape_gate(&worktrees, &settings(true), &texts(&["x"]), "t"),
        Err("Full-access path must be absolute: x".to_string())
    );
    assert_eq!(
        escape_gate(&worktrees, &settings(true), &texts(&["/.."]), "t"),
        Err(format!("Invalid full-access path /..: {PATH_ESCAPES}"))
    );
    assert_eq!(
        escape_gate(&worktrees, &settings(false), &texts(&["/home/me/y"]), "t"),
        Err(FULL_ACCESS_DISABLED.to_string())
    );
}

#[test]
fn missing_parts_of_a_path_are_put_back() {
    assert_eq!(access_candidates("/a/b"), texts(&["/a/b", "/a", "/"]));
    assert_eq!(resolve_access("/a/b/c", 2, "/real"), Ok("/real/b/c".to_string()));
    assert_eq!(resolve_access("/a/b/c", 0, "/real"), Ok("/real".to_string()));
    assert_eq!(unresolved_path("q"), "Unable to resolve path q");
}

#[test]
fn validate_absolute_path_rejects_relative() {
    assert!(validate_absolute_path("relative/path").is_err());
    assert!(validate_absolute_path("./also-relative").is_err());
}

#[test]
fn validate_absolute_path_accepts_absolute() {
    assert!(validate_absolute_path("/tmp/scratch").is_ok());
}

#[test]
fn a_validated_path_has_no_detours() {
    assert_eq!(validate_absolute_path("/tmp/./a/../b"), Ok("/tmp/b".to_string()));
    assert_eq!(validate_absolute_path("/../b"), Err(format!("Invalid path: {PATH_ESCAPES}")));
}

#[test]
fn windows_paths_differ_by_more_than_case() {
    assert!(path_eq("C:\\Data", "c:\\DATA", true));
    assert!(!path_eq("/Data", "/data", false));
    assert!(path_eq("/data/", "/data", false));
}

#[test]
fn removing_a_root_undoes_adding_it() {
    let mut content = AgentSettingsContent::default();
    assert!(add_root(&mut content, RootKind::Allowed, &Vec::new(), "/a".to_string(), false));
    assert!(add_root(&mut content, RootKind::Allowed, &texts(&["/a"]), "/b".to_string(), false));
    assert_eq!(allowed(&content), texts(&["/a", "/b"]));
    assert!(!add_root(
        &mut content,
        RootKind::Allowed,
        &texts(&["/a", "/b"]),
        "/b/".to_string(),
        false
    ));
    remove_root(&mut content, RootKind::Allowed, "/b", false);
    assert_eq!(allowed(&content), texts(&["/a"]));
}

#[test]
fn a_changed_root_is_not_listed_twice() {
    let mut content = AgentSettingsContent::default();
    let listed = texts(&["/a", "/b"]);
    add_root(&mut content, RootKind::Allowed, &Vec::new(), "/a".to_string(), false);
    add_root(&mut content, RootKind::Allowed, &Vec::new(), "/b".to_string(), false);
    assert!(!update_root(&mut content, RootKind::Allowed, &listed, "/a", "/b".to_string(), false));
    assert!(!update_root(&mut content, RootKind::Allowed, &listed, "/z", "/c".to_string(), false));
    assert!(update_root(&mut content, RootKind::Allowed, &listed, "/a", "/c".to_string(), false));
    assert_eq!(allowed(&content), texts(&["/c", "/b"]));
}

#[test]
fn confirmed_fields_are_read() {
    let mut content = AgentSettingsContent::default();
    let listed = texts(&["/a"]);
    let kind = RootKind::Denied;
    assert_eq!(confirm_new_root(&mut content, kind, &listed, "  ", false), RootEdit::Ignored);
    assert_eq!(
        confirm_new_root(&mut content, kind, &listed, " /a/. ", false),
        RootEdit::Refused(ALREADY_LISTED.to_string())
    );
    assert!(matches!(
        confirm_new_root(&mut content, kind, &listed, "rel", false),
        RootEdit::Refused(_)
    ));
    assert!(content.full_access.is_none());
    assert_eq!(confirm_new_root(&mut content, kind, &listed, "/b", false), RootEdit::Changed);
    assert_eq!(
        confirm_changed_root(&mut content, kind, &texts(&["/b"]), "/b", " /b ", false),
        RootEdit::Ignored
    );
    assert_eq!(
        confirm_changed_root(&mut content, kind, &texts(&["/b"]), "/b", "/c", false),
        RootEdit::Changed
    );
    let access = content.full_access.as_ref().unwrap();
    assert_eq!(access.denied_roots.as_ref().unwrap().0, texts(&["/c"]));
    assert!(access.allowed_roots.is_none());
}

#[test]
fn windows_components_are_compared_without_case() {
    let root = texts(&["C:", "\\", "Work"]);
    let path = texts(&["\\\\?\\c:", "\\", "WORK", "src"]);
    assert!(components_are_within(&path, &root, true));
    assert!(!components_are_within(&path, &root, false));
    assert!(!components_are_within(&root, &path, true));
}

#[test]
fn windows_keeps_its_own_directories() {
    assert!(is_catastrophic_on_windows(&texts(&["D:", "\\"])));
    assert!(is_catastrophic_on_windows(&texts(&["c:", "\\", "windows", "System32"])));
    assert!(is_catastrophic_on_windows(&texts(&["C:", "\\", "Program Files (x86)", "x"])));
    assert!(!is_catastrophic_on_windows(&texts(&["C:", "\\", "Users", "me"])));
    assert!(!is_catastrophic_on_windows(&texts(&["D:", "\\", "Windows"])));
}

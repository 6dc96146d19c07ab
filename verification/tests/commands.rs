use prep::cache::{clean_cache, clear_cache, history_count, history_entry, temp_file_action, CleanStep};
use prep::config::{init_config, manage_config, manage_ignore, set_message, ConfigStep, IgnoreAction};
use prep::git::{
    blame_args, blame_lines_by, compare_args, diff_args, hook_script, manage_hooks, HookEnv,
    HookStep, HooksAction,
};

fn step_text(s: &ConfigStep) -> String {
    match s {
        ConfigStep::Print(m) => format!("print {}", m),
        ConfigStep::Write { path, content } => format!("write {} {}", path, content.len()),
        ConfigStep::Edit { path } => format!("edit {}", path),
    }
}

#[test]
fn init_writes_missing_files() {
    let steps: Vec<String> = init_config(false, false, true).iter().map(step_text).collect();
    assert_eq!(
        steps,
        vec![
            "write .prepignore 127".to_string(),
            "print Created .prepignore".to_string(),
            "print .preprc already exists. Use --force to overwrite.".to_string(),
        ]
    );
    let forced = init_config(true, true, true);
    match &forced[2] {
        ConfigStep::Write { path, content } => {
            assert_eq!(path, ".preprc");
            assert_eq!(
                content,
                "# prep configuration\n# Add custom rules here\n[rules]\n\"TODO: fix\" = \"warning\"\n\"console.log\" = \"warning\"\n"
            );
        }
        _ => panic!("expected a write"),
    }
    match &forced[0] {
        ConfigStep::Write { content, .. } => assert_eq!(
            content,
            "# .prepignore - files to ignore when scanning\n*.log\n*.tmp\n*.cache\n*.pyc\n__pycache__/\nnode_modules/\ntarget/\nbuild/\ndist/\n*.lock\n"
        ),
        _ => panic!("expected a write"),
    }
}

#[test]
fn config_steps() {
    assert_eq!(set_message("a=b=c"), "Setting a = b=c (not yet implemented)");
    assert_eq!(set_message("novalue"), "Invalid format. Use key=value");
    assert_eq!(set_message("=x"), "Setting  = x (not yet implemented)");
    let steps: Vec<String> = manage_config(true, true, Some("k=v"), Some("[rules]")).iter().map(step_text).collect();
    assert_eq!(
        steps,
        vec!["print [rules]", "edit .preprc", "print Setting k = v (not yet implemented)"]
    );
    let missing: Vec<String> = manage_config(true, true, None, None).iter().map(step_text).collect();
    let m = "print No configuration file found. Run `prep init` to create one.";
    assert_eq!(missing, vec![m, m]);
    assert!(manage_config(false, false, None, None).is_empty());
}

#[test]
fn ignore_add_then_check() {
    let add = manage_ignore(&IgnoreAction::Add { pattern: "target/".to_string() }, Some("# c\n*.log"));
    assert_eq!(add.message, "Added pattern: target/");
    let written = add.write.unwrap();
    assert_eq!(written, "# c\n*.log\ntarget/");
    let check = manage_ignore(&IgnoreAction::Check { file: "proj/target/x".to_string() }, Some(&written));
    assert_eq!(check.message, "proj/target/x is ignored");
    assert!(check.write.is_none());
    let other = manage_ignore(&IgnoreAction::Check { file: "src/# c".to_string() }, Some(&written));
    assert_eq!(other.message, "src/# c is NOT ignored");
    let top = manage_ignore(&IgnoreAction::Check { file: "target/debug/app".to_string() }, Some(&written));
    assert_eq!(top.message, "target/debug/app is ignored");
    let log = manage_ignore(&IgnoreAction::Check { file: "debug.log".to_string() }, Some("*.log\n"));
    assert_eq!(log.message, "debug.log is ignored");
    assert!(log.write.is_none());
    let deep = manage_ignore(&IgnoreAction::Check { file: "a/b.log".to_string() }, Some("*.log\n"));
    assert_eq!(deep.message, "a/b.log is ignored");
    let name = manage_ignore(&IgnoreAction::Check { file: "src/Cargo.lock".to_string() }, Some("Cargo.lock\n"));
    assert_eq!(name.message, "src/Cargo.lock is ignored");
    // A pattern is matched as a glob, not looked for as a substring.
    let sub = manage_ignore(&IgnoreAction::Check { file: "catalog.txt".to_string() }, Some("log\n"));
    assert_eq!(sub.message, "catalog.txt is NOT ignored");
    let fresh = manage_ignore(&IgnoreAction::Add { pattern: "x".to_string() }, None);
    assert_eq!(fresh.write.unwrap(), "\nx");
}

#[test]
fn ignore_remove_list_reset() {
    let removed = manage_ignore(&IgnoreAction::Remove { pattern: "*.tmp".to_string() }, Some("*.log\n\n  *.tmp  \nbuild/\n"));
    assert_eq!(removed.write.unwrap(), "*.log\nbuild/");
    assert_eq!(removed.message, "Removed pattern: *.tmp");
    let none = manage_ignore(&IgnoreAction::Remove { pattern: "x".to_string() }, None);
    assert!(none.write.is_none());
    assert_eq!(none.message, "No .prepignore file found.");
    let list = manage_ignore(&IgnoreAction::List, Some("a\nb"));
    assert_eq!(list.message, "Current ignored patterns:\na\nb");
    assert_eq!(manage_ignore(&IgnoreAction::Check { file: "f".to_string() }, None).message, "No .prepignore file found.");
    let reset = manage_ignore(&IgnoreAction::Reset, None);
    assert_eq!(reset.write.unwrap(), "# .prepignore\n*.log\n*.tmp\n*.cache\nnode_modules/\ntarget/\nbuild/\n");
    assert_eq!(reset.message, "Reset .prepignore to defaults.");
}

fn hook_text(s: &HookStep) -> String {
    match s {
        HookStep::Print(m) => format!("print {}", m),
        HookStep::WriteHook { path, .. } => format!("write {}", path),
        HookStep::RemoveHook { path } => format!("remove {}", path),
        HookStep::ShowHook { path } => format!("show {}", path),
        HookStep::RunPrep { program, arg, failure } => format!("run {} {} / {}", program, arg, failure),
    }
}

#[test]
fn hooks() {
    let env = HookEnv { hooks_dir_exists: true, hook_exists: true, prep_path: "/bin/prep".to_string() };
    let install = |force, all| -> Vec<String> {
        manage_hooks(&HooksAction::Install { force, all }, &env).iter().map(hook_text).collect()
    };
    assert_eq!(install(false, false), vec!["print pre-commit hook already exists. Use --force to overwrite."]);
    assert_eq!(
        install(true, true),
        vec![
            "write .git/hooks/pre-commit",
            "print pre-commit hook installed at .git/hooks/pre-commit",
            "print Installing other hooks... (not yet implemented)",
        ]
    );
    let no_git = HookEnv { hooks_dir_exists: false, hook_exists: false, prep_path: "prep".to_string() };
    let s: Vec<String> = manage_hooks(&HooksAction::Install { force: true, all: false }, &no_git).iter().map(hook_text).collect();
    assert_eq!(s, vec!["print Not a git repository. Run `git init` first."]);
    let u: Vec<String> = manage_hooks(&HooksAction::Uninstall, &env).iter().map(hook_text).collect();
    assert_eq!(u, vec!["remove .git/hooks/pre-commit", "print pre-commit hook removed."]);
    let st: Vec<String> = manage_hooks(&HooksAction::Status, &no_git).iter().map(hook_text).collect();
    assert_eq!(st, vec!["print No pre-commit hook installed."]);
    let st2: Vec<String> = manage_hooks(&HooksAction::Status, &env).iter().map(hook_text).collect();
    assert_eq!(st2, vec!["print pre-commit hook is installed.", "show .git/hooks/pre-commit"]);
    let run: Vec<String> = manage_hooks(&HooksAction::Run { fix: false }, &env).iter().map(hook_text).collect();
    assert_eq!(run, vec!["print Running prep audit...", "run /bin/prep audit / prep audit failed."]);
    let runfix: Vec<String> = manage_hooks(&HooksAction::Run { fix: true }, &env).iter().map(hook_text).collect();
    assert_eq!(runfix, vec!["print Running prep fix...", "run /bin/prep fix / prep fix failed."]);
}

#[test]
fn hook_script_runs_audit_and_fix() {
    let s = hook_script("/usr/bin/prep");
    assert!(s.starts_with("#!/bin/sh\n# prep pre-commit hook\n# Using absolute path: /usr/bin/prep\n"));
    assert!(s.contains("\n/usr/bin/prep audit\nif [ $? -ne 0 ]; then\n"));
    assert!(s.contains("\n/usr/bin/prep fix --dry-run\n"));
    assert!(s.ends_with("echo \"prep checks passed.\"\n"));
}

#[test]
fn git_arguments_and_output() {
    assert_eq!(blame_args(None, false), vec!["blame", "."]);
    assert_eq!(blame_args(Some("2024-01-01"), true), vec!["blame", "--since", "2024-01-01", "-s", "."]);
    assert_eq!(diff_args(false, true, None), vec!["diff"]);
    assert_eq!(diff_args(true, false, Some("main")), vec!["diff", "--staged", "main"]);
    assert_eq!(compare_args("a", "b"), vec!["diff", "a", "b"]);
    let out = "abc (alice 2024) x\ndef (bob 2024) y\r\n123 (alice 2023) z\n";
    assert_eq!(blame_lines_by(out, "alice"), vec!["abc (alice 2024) x", "123 (alice 2023) z"]);
    assert!(blame_lines_by(out, "carol").is_empty());
}

fn clean_text(s: &CleanStep) -> String {
    match s {
        CleanStep::ListCache => "list".to_string(),
        CleanStep::ClearCache => "clear".to_string(),
        CleanStep::CleanTempFiles { patterns, dry_run } => format!("temp {} {}", patterns.join(","), dry_run),
    }
}

#[test]
fn cleaning() {
    let t = |all, dry| -> Vec<String> { clean_cache(all, dry).iter().map(clean_text).collect() };
    assert_eq!(t(true, true), vec!["list"]);
    assert_eq!(t(true, false), vec!["clear", "temp *.tmp,*.log,*.cache false"]);
    assert_eq!(t(false, true), vec!["temp *.tmp,*.log,*.cache true"]);
    assert_eq!(t(false, false), vec!["temp *.tmp,*.log,*.cache false"]);
    assert_eq!(clear_cache(true), (true, "Cache cleared.".to_string()));
    assert_eq!(clear_cache(false), (false, "No cache to clear.".to_string()));
    assert_eq!(temp_file_action(true, true, "a.tmp"), (false, Some("Would remove: a.tmp".to_string())));
    assert_eq!(temp_file_action(false, true, "a.tmp"), (true, Some("Removed: a.tmp".to_string())));
    assert_eq!(temp_file_action(false, false, "dir.log"), (false, None));
}

#[test]
fn history_lines() {
    assert_eq!(history_entry("scan.json", 0), "scan.json - 1970-01-01 00:00:00");
    assert_eq!(history_entry("x", 1431648000), "x - 2015-05-15 00:00:00");
    assert_eq!(history_entry("far", i64::MAX), "far - unknown");
    assert_eq!(history_count(3), "3 cache entries found.");
}

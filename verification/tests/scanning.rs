use prep::checks::{CheckResult, Severity};
use prep::scan::{
    audit_lines, ci_failed, commit_line, count_findings, file_digest, find_matches, latest_tag,
    manifest_text, regex_valid, repo_info_lines, search_output, search_regex, select_paths,
    top_extensions, trim_content, AuditLine,
};
use prep::checks::run_checks_on_file;

fn cr(severity: Severity, message: &str) -> CheckResult {
    CheckResult { severity, message: message.to_string() }
}

fn checked() -> Vec<(String, Vec<CheckResult>)> {
    vec![
        ("a".to_string(), vec![cr(Severity::Error, "e1"), cr(Severity::Info, "i1"), cr(Severity::Warning, "w1")]),
        ("b".to_string(), vec![]),
        ("c".to_string(), vec![cr(Severity::Error, "e2")]),
    ]
}

fn audit_text(l: &AuditLine) -> String {
    match l {
        AuditLine::File(p) => format!("file {}", p),
        AuditLine::Finding(s, m) => format!("{:?} {}", s, m),
    }
}

#[test]
fn audit_and_ci() {
    assert_eq!(count_findings(&checked()), (2, 1));
    let quiet: Vec<String> = audit_lines(&checked(), false).iter().map(audit_text).collect();
    assert_eq!(quiet, vec!["file a", "Error e1", "Warning w1", "file c", "Error e2"]);
    let loud: Vec<String> = audit_lines(&checked(), true).iter().map(audit_text).collect();
    assert_eq!(loud, vec!["file a", "Error e1", "Info i1", "Warning w1", "file c", "Error e2"]);
    assert!(ci_failed(1, 0, false, None));
    assert!(!ci_failed(0, 3, false, None));
    assert!(ci_failed(0, 3, true, None));
    assert!(ci_failed(0, 3, false, Some(2)));
    assert!(!ci_failed(0, 2, false, Some(2)));
    assert!(!ci_failed(0, 0, true, Some(0)));
}

#[test]
fn searching() {
    assert_eq!(search_regex("todo", true), "(?i)todo");
    assert_eq!(search_regex("todo", false), "todo");
    assert!(regex_valid("a+b"));
    assert!(!regex_valid("a(b"));
    let text = "fn main() {\n    // TODO: more\n    let todo = 1;\n}\n";
    let m = find_matches(&search_regex("todo", true), text);
    assert_eq!(m, vec![(2, "    // TODO: more".to_string()), (3, "    let todo = 1;".to_string())]);
    let exact = find_matches("todo", text);
    assert_eq!(exact, vec![(3, "    let todo = 1;".to_string())]);
    assert!(find_matches("a(b", text).is_empty());
    assert_eq!(search_output("f.rs", &m, true, true, true), vec!["f.rs"]);
    assert_eq!(search_output("f.rs", &m, false, true, true), vec!["f.rs: 2"]);
    assert_eq!(
        search_output("f.rs", &m, false, false, true),
        vec!["f.rs", "  2:     // TODO: more", "  3:     let todo = 1;"]
    );
    assert_eq!(
        search_output("f.rs", &exact, false, false, false),
        vec!["f.rs", "      let todo = 1;"]
    );
}

#[test]
fn manifest() {
    assert_eq!(file_digest(b"abc"), "ba7816bf8f01cfea414140de5dae2223b00361a396177a9cb410ff61f20015ad");
    assert_eq!(file_digest(b"").len(), 64);
    let entries = vec![("a.txt".to_string(), "00".to_string()), ("b/c.md".to_string(), "ff".to_string())];
    assert_eq!(manifest_text(&entries), "00  a.txt\nff  b/c.md");
    assert_eq!(manifest_text(&[]), "");
}

#[test]
fn repository_info() {
    let exts: Vec<String> = ["RS", "rs", "md", "Rs", "txt", "md", "a", "b", "c"].iter().map(|s| s.to_string()).collect();
    let top = top_extensions(&exts);
    assert_eq!(
        top,
        vec![
            ("rs".to_string(), 3),
            ("md".to_string(), 2),
            ("txt".to_string(), 1),
            ("a".to_string(), 1),
            ("b".to_string(), 1),
        ]
    );
    assert_eq!(
        repo_info_lines(4, 3 * 1024 * 1024 + 5, &top[..2]),
        vec!["Repository Info:", "  Files: 4", "  Total size: 3 MB", "  Top extensions:", "    .rs: 3", "    .md: 2"]
    );
    assert_eq!(commit_line("  abc123\n"), "  Git commit: abc123");
}

#[test]
fn trimming_files() {
    let (t, changed) = trim_content("a  \nb\t\r\nc\n");
    assert_eq!(t, "a\nb\nc\n");
    assert!(changed);
    let (same, unchanged) = trim_content("a\nb");
    assert_eq!(same, "a\nb");
    assert!(!unchanged);
    // The final newline stays.
    assert_eq!(trim_content("a\n"), ("a\n".to_string(), false));
    assert_eq!(trim_content(""), (String::new(), false));
    // Nothing the trim leaves is reported as trailing whitespace.
    let (u, _) = trim_content(" x \u{a0}\n\ty \t\r\r\n   ");
    assert!(run_checks_on_file(false, Some(&u)).iter().all(|r| !r.message.contains("Trailing whitespace")));
    assert_eq!(u, " x\n\ty\n");
    // Trimming twice changes nothing more.
    assert_eq!(trim_content(&u), (u.clone(), false));
    let (once, _) = trim_content(" a \n\n b\t");
    assert_eq!(trim_content(&once), (once.clone(), false));
}

#[test]
fn release_tags() {
    let pretty = "{\n  \"url\": \"https://x\",\n  \"tag_name\": \"v1.2.3\",\n  \"name\": \"y\"\n}\n";
    assert_eq!(latest_tag(pretty), Some("v1.2.3\"".to_string()));
    assert_eq!(latest_tag("\"tag_name\":\"v2\""), Some("v2".to_string()));
    assert_eq!(latest_tag("\"tag_name\""), None);
    assert_eq!(latest_tag("nothing here"), None);
    assert_eq!(latest_tag("\"tag_name\": , \n"), Some("".to_string()));
}

#[test]
fn selecting_paths() {
    let paths: Vec<String> = ["./a.rs", "./b.log", "./src/c.log", "./d.md"].iter().map(|s| s.to_string()).collect();
    assert_eq!(select_paths(&paths, None, None), Ok(vec![0, 1, 2, 3]));
    assert_eq!(select_paths(&paths, Some("*.log"), None), Ok(vec![0, 3]));
    assert_eq!(select_paths(&paths, Some("*.log"), Some("*.rs")), Ok(vec![0]));
    assert_eq!(select_paths(&paths, None, Some("./src/*")), Ok(vec![2]));
    assert_eq!(select_paths(&paths, Some("[a"), Some("[b")), Err("[a".to_string()));
    assert_eq!(select_paths(&paths, Some("*.md"), Some("[b")), Err("[b".to_string()));
}

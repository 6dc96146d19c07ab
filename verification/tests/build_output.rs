use prep::buildlog::{
    build_command, format_build_output, has_build_output, interpret_captures, line_style,
    parse_build_output, BuildIssue, LineStyle,
};

fn lines(text: &str) -> Vec<String> {
    text.lines().map(String::from).collect()
}

fn issue(i: &BuildIssue) -> (Option<String>, Option<usize>, Option<usize>, String, String) {
    (i.file.clone(), i.line, i.col, i.message.clone(), i.raw.clone())
}

const GRADLE: &str = "> Task :app:compileDebugKotlin FAILED
e: file:///home/u/app/src/Main.kt:12:5 Unresolved reference: foo
w: file:///home/u/app/src/Main.kt:3:1 Parameter 'x' is never used

FAILURE: Build failed with an exception.

* What went wrong:
Execution failed for task ':app:compileDebugKotlin'.
> Compilation error. See log for more details.

* Try:
> Run with --stacktrace option to get the stack trace.

BUILD FAILED in 2s";

#[test]
fn gradle_kotlin_output() {
    let (errors, warnings, task_failure, status) = parse_build_output(&lines(GRADLE));
    assert_eq!(errors.len(), 2);
    assert_eq!(
        issue(&errors[0]),
        (
            Some("/home/u/app/src/Main.kt".to_string()),
            Some(12),
            Some(5),
            "Unresolved reference: foo".to_string(),
            "e: file:///home/u/app/src/Main.kt:12:5 Unresolved reference: foo".to_string()
        )
    );
    let config = "Execution failed for task ':app:compileDebugKotlin'. > Compilation error. See log for more details.";
    assert_eq!(issue(&errors[1]), (None, None, None, config.to_string(), config.to_string()));
    assert_eq!(warnings.len(), 1);
    assert_eq!(
        issue(&warnings[0]),
        (
            Some("/home/u/app/src/Main.kt".to_string()),
            Some(3),
            Some(1),
            "Parameter 'x' is never used".to_string(),
            "w: file:///home/u/app/src/Main.kt:3:1 Parameter 'x' is never used".to_string()
        )
    );
    assert_eq!(task_failure, None);
    assert_eq!(status, Some("BUILD FAILED in 2s".to_string()));

    let report = format_build_output(&errors, &warnings, &task_failure, &status);
    let expected = vec![
        "[error] - /home/u/app/src/Main.kt",
        "- [line] - 12:5",
        "*reason of the error",
        " > Unresolved reference: foo",
        "",
        "[error] - Execution failed for task ':app:compileDebugKotlin'.",
        "*reason of the error",
        " > Compilation error. See log for more details.",
        "",
        "[warning] - /home/u/app/src/Main.kt",
        "- [line] - 3:1",
        "*reason of the warning",
        " > Parameter 'x' is never used",
        "",
        "BUILD FAILED in 2s",
    ];
    assert_eq!(report, expected);
}

#[test]
fn compiler_style_lines() {
    let out = lines(
        "src/main.rs:10: error: mismatched types\nfoo.c:3:7: error: bad\nerror[E0308]: mismatched types\nwarning: unused variable: `x`\nerror[E0308]: mismatched types\nlib.rs:4: warning: dead code\n",
    );
    let (errors, warnings, task_failure, status) = parse_build_output(&out);
    assert_eq!(
        errors.iter().map(issue).collect::<Vec<_>>(),
        vec![
            (
                Some("src/main.rs".to_string()),
                Some(10),
                None,
                "mismatched types".to_string(),
                "src/main.rs:10: error: mismatched types".to_string()
            ),
            (
                Some("foo.c:3".to_string()),
                Some(7),
                None,
                "bad".to_string(),
                "foo.c:3:7: error: bad".to_string()
            ),
            (
                None,
                None,
                None,
                "error[E0308]: mismatched types".to_string(),
                "error[E0308]: mismatched types".to_string()
            ),
        ]
    );
    assert_eq!(
        warnings.iter().map(issue).collect::<Vec<_>>(),
        vec![
            (
                None,
                None,
                None,
                "warning: unused variable: `x`".to_string(),
                "warning: unused variable: `x`".to_string()
            ),
            (
                Some("lib.rs".to_string()),
                Some(4),
                None,
                "dead code".to_string(),
                "lib.rs:4: warning: dead code".to_string()
            ),
        ]
    );
    assert_eq!(task_failure, None);
    assert_eq!(status, Some("BUILD FAILED".to_string()));
}

#[test]
fn status_is_inferred() {
    let (e, w, t, s) = parse_build_output(&lines("compiling\nall good\n"));
    assert!(e.is_empty() && w.is_empty() && t.is_none());
    assert_eq!(s, Some("BUILD SUCCESSFUL".to_string()));
    let (e2, _, t2, s2) = parse_build_output(&lines("> Task :app:build\nExecution failed for task ':app:build'.\n"));
    assert!(e2.is_empty());
    assert_eq!(t2, Some("Execution failed for task ':app:build'.".to_string()));
    assert_eq!(s2, Some("BUILD FAILED".to_string()));
    let (_, _, _, s3) = parse_build_output(&lines("BUILD FAILED\nx: error: y\nBUILD SUCCESSFUL in 1s\n"));
    assert_eq!(s3, Some("BUILD SUCCESSFUL in 1s".to_string()));
    let (_, _, _, s4) = parse_build_output(&[]);
    assert_eq!(s4, Some("BUILD SUCCESSFUL".to_string()));
}

#[test]
fn repeated_lines_are_recorded_once() {
    let (e, w, _, _) = parse_build_output(&lines(
        "a.c:1: error: x\n  a.c:1: error: x  \nException in thread main\nException in thread main\nWARNING: careful\nWARNING: careful\n",
    ));
    assert_eq!(e.len(), 2);
    assert_eq!(e[1].message, "Exception in thread main");
    assert_eq!(w.len(), 1);
    assert_eq!(w[0].message, "WARNING: careful");
}

#[test]
fn failure_lines_are_not_errors() {
    let (e, w, _, _) = parse_build_output(&lines("FAILURE: Build failed with an exception.\n* Try:\n"));
    assert!(e.is_empty());
    assert!(w.is_empty());
}

#[test]
fn captures_are_read_by_count() {
    let five = vec![
        Some("e: file://a:1:2 m".to_string()),
        Some("a".to_string()),
        Some("1".to_string()),
        Some("x".to_string()),
        Some("m".to_string()),
    ];
    let i = interpret_captures(&five, "raw");
    assert_eq!(issue(&i), (Some("a".to_string()), Some(1), Some(0), "m".to_string(), "raw".to_string()));
    let four = vec![Some("all".to_string()), None, Some("+9".to_string()), Some("msg".to_string())];
    let j = interpret_captures(&four, "raw");
    assert_eq!(issue(&j), (Some("".to_string()), Some(9), None, "msg".to_string(), "raw".to_string()));
    let three = vec![Some("all".to_string()), Some("a".to_string()), Some("b".to_string())];
    let k = interpret_captures(&three, "whole");
    assert_eq!(issue(&k), (None, None, None, "whole".to_string(), "whole".to_string()));
}

#[test]
fn report_lines_and_styles() {
    let errors = vec![BuildIssue {
        file: None,
        line: None,
        col: None,
        message: "m".to_string(),
        raw: "plain raw".to_string(),
    }];
    let warnings = vec![BuildIssue {
        file: Some("f.rs".to_string()),
        line: Some(3),
        col: None,
        message: "w".to_string(),
        raw: "r".to_string(),
    }, BuildIssue {
        file: None,
        line: None,
        col: None,
        message: "wm".to_string(),
        raw: "a > b".to_string(),
    }];
    let out = format_build_output(&errors, &warnings, &Some("task".to_string()), &None);
    assert_eq!(
        out,
        vec![
            "[error] - plain raw", "*reason of the error", " > m", "",
            "[warning] - f.rs", "- [line] - 3", "*reason of the warning", " > w", "",
            "[warning] - a > b", "*reason of the warning", " > wm", "",
            "task",
        ]
    );
    assert_eq!(line_style("[error] - x"), LineStyle::Error);
    assert_eq!(line_style("[warning] - x"), LineStyle::Warning);
    assert_eq!(line_style(" [error]"), LineStyle::Plain);
    assert!(has_build_output(&errors, &[], &None, &None));
    assert!(!has_build_output(&[], &[], &None, &None));
}

#[test]
fn build_tools() {
    let g = build_command(None).ok().unwrap();
    assert_eq!((g.program.as_str(), g.args.clone()), ("gradle", vec!["assembleDebug".to_string()]));
    let m = build_command(Some("maven")).ok().unwrap();
    assert_eq!((m.program.as_str(), m.args.clone()), ("mvn", vec!["compile".to_string()]));
    let c = build_command(Some("cargo")).ok().unwrap();
    assert_eq!((c.program.as_str(), c.args.clone()), ("cargo", vec!["build".to_string()]));
    match build_command(Some("make")) {
        Err(m) => assert_eq!(m, "Unsupported tool: make. Use gradle, maven, or cargo."),
        Ok(_) => panic!("make is not supported"),
    }
}

type Parsed = (
    Vec<(Option<String>, Option<usize>, Option<usize>, String, String)>,
    Vec<(Option<String>, Option<usize>, Option<usize>, String, String)>,
    Option<String>,
    Option<String>,
);

fn parsed(v: &[String]) -> Parsed {
    let (e, w, t, s) = parse_build_output(v);
    (e.iter().map(issue).collect(), w.iter().map(issue).collect(), t, s)
}

#[test]
fn blank_lines_and_padding_change_nothing() {
    let plain = lines("src/a.c:3: error: boom\nsrc/b.c:9: warning: odd\nBUILD FAILED");
    let padded = vec![
        "".to_string(),
        "   src/a.c:3: error: boom  ".to_string(),
        "\t".to_string(),
        " src/b.c:9: warning: odd".to_string(),
        "".to_string(),
        "BUILD FAILED\t".to_string(),
        "   ".to_string(),
    ];
    assert_eq!(parsed(&padded), parsed(&plain));
}

#[test]
fn a_repeated_line_adds_nothing() {
    let base = lines("src/a.c:3: error: boom\nnote: an exception happened\nsome warning here\nBUILD SUCCESSFUL");
    for i in 0..3 {
        let mut again = base.clone();
        again.push(base[i].trim().to_string());
        assert_eq!(parsed(&again), parsed(&base));
    }
}

#[test]
fn report_has_fixed_lines_per_issue() {
    let (errors, warnings, task_failure, status) =
        parse_build_output(&lines("src/a.c:3: error: boom\nsomething failed: error > cause\nx.c:1: warning: w\nweird warning\nExecution failed for task ':a'."));
    let out = format_build_output(&errors, &warnings, &task_failure, &status);
    // 5 + 4 error lines, 5 + 4 warning lines, the failed task and the status.
    assert_eq!(out.len(), 5 + 4 + 5 + 4 + 1 + 1);
    assert_eq!(out[0], "[error] - src/a.c");
    assert_eq!(out[5], "[error] - something failed: error");
    assert_eq!(out[9], "[warning] - x.c");
    assert_eq!(out[14], "[warning] - weird warning");
    assert_eq!(out[18], "Execution failed for task ':a'.");
    assert_eq!(out[19], "BUILD FAILED");
}

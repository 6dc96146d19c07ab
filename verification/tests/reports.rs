use prep::checks::{run_checks_on_file, CheckResult, Severity};
use prep::report::{
    collect_issues, export_format, export_issues, generate_report, generate_csv_report, generate_html_report,
    generate_markdown_report, generate_xml_report, import_issues, line_of_message, output_path, render_report,
    report_file_kept, report_format, stats, summary, Issue, ReportFormat,
};

fn cr(severity: Severity, message: &str) -> CheckResult {
    CheckResult { severity, message: message.to_string() }
}

fn sample() -> Vec<Issue> {
    collect_issues(&[
        (
            "src/a.rs".to_string(),
            vec![
                cr(Severity::Error, "Line 3: Possible AWS Access Key found"),
                cr(Severity::Warning, "No newline at end of file"),
            ],
        ),
        ("src/b.rs".to_string(), vec![cr(Severity::Info, "Line 12: CRLF line ending (should be LF)")]),
    ])
}

#[test]
fn issues_carry_line_numbers() {
    let issues = sample();
    assert_eq!(issues.len(), 3);
    assert_eq!(issues[0].file, "src/a.rs");
    assert_eq!(issues[0].line, Some(3));
    assert_eq!(issues[0].col, None);
    assert_eq!(issues[0].severity, "error");
    assert_eq!(issues[1].line, None);
    assert_eq!(issues[1].severity, "warning");
    assert_eq!(issues[2].line, Some(12));
    assert_eq!(issues[2].severity, "info");
    assert_eq!(issues[2].message, "Line 12: CRLF line ending (should be LF)");
}

#[test]
fn line_numbers_read_from_messages() {
    assert_eq!(line_of_message("Line 7: x"), Some(7));
    assert_eq!(line_of_message("  Line  8 : x"), Some(8));
    assert_eq!(line_of_message("Line 7 x"), None);
    assert_eq!(line_of_message("Line x: y"), None);
    assert_eq!(line_of_message("No Line here"), None);
    assert_eq!(line_of_message("at Line 5: Line 6: z"), None);
    assert_eq!(line_of_message("Line Line 5: z"), Some(5));
    // Every per-line finding of the checks reads back its own line.
    let r = run_checks_on_file(false, Some("ok\nbad \n"));
    let issues = collect_issues(&[("f".to_string(), r)]);
    assert_eq!(issues[0].line, Some(2));
}

#[test]
fn csv_report() {
    let csv = generate_csv_report(&sample());
    assert_eq!(
        csv,
        "File,Line,Severity,Message\nsrc/a.rs,3,error,Line 3: Possible AWS Access Key found\nsrc/a.rs,-,warning,No newline at end of file\nsrc/b.rs,12,info,Line 12: CRLF line ending (should be LF)\n"
    );
    assert_eq!(generate_csv_report(&[]), "File,Line,Severity,Message\n");
}

#[test]
fn markdown_report() {
    let md = generate_markdown_report(&sample());
    assert_eq!(
        md,
        "# prep Report\n\nTotal issues: 3\n\n| File | Line | Severity | Message |\n|------|------|----------|---------|\n| src/a.rs | 3 | ERROR | Line 3: Possible AWS Access Key found |\n| src/a.rs | - | WARNING | No newline at end of file |\n| src/b.rs | 12 | INFO | Line 12: CRLF line ending (should be LF) |\n"
    );
}

#[test]
fn html_report() {
    let issues = vec![Issue {
        file: "x.rs".to_string(),
        line: Some(1),
        col: None,
        severity: "warning".to_string(),
        message: "m".to_string(),
    }];
    let html = generate_html_report(&issues);
    let mut expected = String::new();
    expected.push_str("<!DOCTYPE html><html><head><title>prep Report</title>");
    expected.push_str("<style>body{font-family:sans-serif;margin:20px;background:#f5f5f5;}");
    expected.push_str(".error{color:#d32f2f;}.warning{color:#f57c00;}.info{color:#1976d2;}");
    expected.push_str("table{width:100%;border-collapse:collapse;background:#fff;box-shadow:0 2px 4px rgba(0,0,0,0.1);}");
    expected.push_str("th,td{padding:10px;text-align:left;border-bottom:1px solid #ddd;}");
    expected.push_str("th{background:#2c3e50;color:#fff;}");
    expected.push_str(".severity{font-weight:bold;}</style></head><body>");
    expected.push_str("<h1>prep Report</h1>");
    expected.push_str("<p>Total issues: 1</p>");
    expected.push_str("<table><tr><th>File</th><th>Line</th><th>Severity</th><th>Message</th></tr>");
    expected.push_str("<tr><td>x.rs</td><td>1</td><td class='severity warning'>WARNING</td><td>m</td></tr>");
    expected.push_str("</table></body></html>");
    assert_eq!(html, expected);
    assert_eq!(render_report(ReportFormat::Html, &issues), Some(expected));
    assert_eq!(render_report(ReportFormat::Json, &issues), None);
    assert_eq!(render_report(ReportFormat::Csv, &issues), Some(generate_csv_report(&issues)));
}

#[test]
fn summary_counts_each_severity() {
    let issues = sample();
    assert_eq!(
        summary(2, &issues, false),
        vec!["Repository Summary:", "  Files scanned: 2", "  Errors: 1", "  Warnings: 1", "  Infos: 1"]
    );
    assert_eq!(
        summary(2, &issues, true),
        vec![
            "Repository Summary:",
            "  Files scanned: 2",
            "  Errors: 1",
            "  Warnings: 1",
            "  Infos: 1",
            "\nErrors:",
            "  Line 3: Possible AWS Access Key found",
            "\nWarnings:",
            "  No newline at end of file",
        ]
    );
    assert_eq!(summary(0, &[], true).len(), 5);
}

#[test]
fn stats_rank_files() {
    let mk = |f: &str| Issue {
        file: f.to_string(),
        line: None,
        col: None,
        severity: "error".to_string(),
        message: String::new(),
    };
    let issues = vec![mk("a"), mk("b"), mk("b"), mk("c"), mk("b"), mk("c")];
    assert_eq!(
        stats(&issues, None),
        vec!["Top 10 files with most issues:", "  b: 3 issues", "  c: 2 issues", "  a: 1 issues", "\nTotal issues: 6"]
    );
    assert_eq!(
        stats(&issues, Some(1)),
        vec!["Top 1 files with most issues:", "  b: 3 issues", "\nTotal issues: 6"]
    );
    let tie = vec![mk("y"), mk("x")];
    assert_eq!(stats(&tie, Some(0)), vec!["Top 0 files with most issues:", "\nTotal issues: 2"]);
    assert_eq!(stats(&tie, None)[1..3].to_vec(), vec!["  y: 1 issues", "  x: 1 issues"]);
}

#[test]
fn formats_and_paths() {
    assert_eq!(report_format(None), ReportFormat::Html);
    assert_eq!(report_format(Some("json")), ReportFormat::Json);
    assert_eq!(report_format(Some("markdown")), ReportFormat::Markdown);
    assert_eq!(report_format(Some("csv")), ReportFormat::Csv);
    assert_eq!(report_format(Some("xml")), ReportFormat::Html);
    assert_eq!(export_format(None), ReportFormat::Csv);
    assert_eq!(export_format(Some("json")), ReportFormat::Json);
    assert_eq!(export_format(Some("xml")), ReportFormat::Xml);
    assert_eq!(export_format(Some("yaml")), ReportFormat::Csv);
    assert_eq!(output_path(None, "report.html"), "report.html");
    assert_eq!(output_path(Some("out.md"), "report.html"), "out.md");
    assert!(report_file_kept(None));
    assert!(report_file_kept(Some("rs")));
    assert!(!report_file_kept(Some("png")));
    assert!(!report_file_kept(Some("bin")));
    assert!(report_file_kept(Some("PNG")));
}

#[test]
fn importing_json() {
    assert_eq!(import_issues("[1, 2, 3]"), "Imported 3 issues");
    assert_eq!(import_issues("{\"total\": 2}"), "Imported 0 issues");
    assert_eq!(import_issues("not json"), "Failed to parse JSON. Only JSON import is supported.");
}

#[test]
fn xml_export() {
    let issues = vec![
        Issue {
            file: "src/a&b.rs".to_string(),
            line: Some(3),
            col: None,
            severity: "error".to_string(),
            message: "Line 3: <x> \"q\" 'y'".to_string(),
        },
        Issue { file: "c".to_string(), line: None, col: None, severity: "info".to_string(), message: "m".to_string() },
    ];
    let expected = "<?xml version=\"1.0\" encoding=\"UTF-8\"?>\n<issues total=\"2\">\n  <issue file=\"src/a&amp;b.rs\" line=\"3\" severity=\"error\">Line 3: &lt;x&gt; &quot;q&quot; &apos;y&apos;</issue>\n  <issue file=\"c\" line=\"-\" severity=\"info\">m</issue>\n</issues>\n";
    assert_eq!(generate_xml_report(&issues), expected);
    assert_eq!(render_report(ReportFormat::Xml, &issues), Some(expected.to_string()));
    assert_eq!(generate_xml_report(&[]), "<?xml version=\"1.0\" encoding=\"UTF-8\"?>\n<issues total=\"0\">\n</issues>\n");
}

#[test]
fn report_and_export_jobs() {
    let issues = vec![Issue {
        file: "a.rs".to_string(),
        line: Some(2),
        col: None,
        severity: "warning".to_string(),
        message: "Line 2: Trailing whitespace".to_string(),
    }];
    let job = generate_report(None, None, &issues);
    assert_eq!(job.path, "report.html");
    assert_eq!(job.text, Some(generate_html_report(&issues)));
    assert_eq!(job.message, "Report saved to report.html");
    let odd = generate_report(Some("yaml"), Some("r.out"), &issues);
    assert_eq!(odd.path, "r.out");
    assert_eq!(odd.text, Some(generate_html_report(&issues)));
    assert_eq!(odd.message, "Report saved to r.out");
    assert_eq!(generate_report(Some("json"), None, &issues).text, None);
    assert_eq!(generate_report(Some("markdown"), None, &issues).text, Some(generate_markdown_report(&issues)));
    let ex = export_issues(None, None, &issues);
    assert_eq!(ex.path, "issues.csv");
    assert_eq!(ex.text, Some(generate_csv_report(&issues)));
    assert_eq!(ex.message, "Exported issues to issues.csv");
    assert_eq!(export_issues(Some("xml"), Some("i.xml"), &issues).text, Some(generate_xml_report(&issues)));
}

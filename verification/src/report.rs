//! Reports over the findings of the checks: the issue list, HTML, Markdown
//! and CSV renderings, the summary and the per-file statistics.

use vstd::prelude::*;
use crate::bridge::{json_array_len, parse_json_array_len, string_of, to_uppercase, upper_case};
use crate::checks::{findings, CheckResult, Finding, Severity};
use crate::tally::{count_views, key_views, rank, rank_desc, spec_tally, tally, Count};
use crate::text::{
    chars_of, contains_str, find, lemma_find_from, parse_usize, push_chars, push_decimal,
    push_str, replace, spec_contains, spec_decimal, spec_find, spec_parse_usize, spec_replace,
    spec_starts_with, spec_trim, same_text, sub_chars, trim,
};

verus! {

/// One issue of a report.
#[derive(Debug)]
pub struct Issue {
    pub file: String,
    pub line: Option<usize>,
    pub col: Option<usize>,
    pub severity: String,
    pub message: String,
}

/// An issue as a mathematical value.
pub struct IssueRecord {
    pub file: Seq<char>,
    pub line: Option<usize>,
    pub col: Option<usize>,
    pub severity: Seq<char>,
    pub message: Seq<char>,
}

impl View for Issue {
    type V = IssueRecord;

    open spec fn view(&self) -> IssueRecord {
        IssueRecord {
            file: self.file@,
            line: self.line,
            col: self.col,
            severity: self.severity@,
            message: self.message@,
        }
    }
}

/// The views of a list of issues.
pub open spec fn records(v: Seq<Issue>) -> Seq<IssueRecord> {
    v.map_values(|i: Issue| i@)
}

/// The name of a severity in reports.
pub open spec fn severity_name(s: Severity) -> Seq<char> {
    match s {
        Severity::Error => "error"@,
        Severity::Warning => "warning"@,
        Severity::Info => "info"@,
    }
}

fn severity_text(s: Severity) -> (res: &'static str)
    ensures
        res@ == severity_name(s),
{
    match s {
        Severity::Error => "error",
        Severity::Warning => "warning",
        Severity::Info => "info",
    }
}

/// The line number a finding's message names: for a message that mentions
/// `"Line "`, the text before its first `':'`, with every `"Line "` removed
/// and the whitespace trimmed, read as a number.
pub open spec fn message_line(message: Seq<char>) -> Option<usize> {
    if spec_contains(message, "Line "@) {
        match spec_find(message, ":"@) {
            Some(k) => spec_parse_usize(spec_trim(spec_replace(message.subrange(0, k), "Line "@, seq![]))),
            None => None,
        }
    } else {
        None
    }
}

/// Reads the line number out of a finding's message.
pub fn line_of_message(message: &str) -> (res: Option<usize>)
    ensures
        res == message_line(message@),
{
    let m = chars_of(message);
    if !contains_str(m.as_slice(), "Line ") {
        return None;
    }
    let colon = chars_of(":");
    match find(m.as_slice(), colon.as_slice()) {
        Some(k) => {
            proof {
                lemma_find_from(m@, colon@, 0);
            }
            let head = sub_chars(m.as_slice(), 0, k);
            let pat = chars_of("Line ");
            proof {
                reveal_strlit("Line ");
            }
            let empty: Vec<char> = Vec::new();
            let cleaned = replace(head.as_slice(), pat.as_slice(), empty.as_slice());
            let t = trim(cleaned.as_slice());
            parse_usize(t.as_slice())
        },
        None => None,
    }
}

/// The report issue for one finding about a file.
pub open spec fn issue_of_finding(file: Seq<char>, f: Finding) -> IssueRecord {
    IssueRecord {
        file,
        line: message_line(f.1),
        col: None,
        severity: severity_name(f.0),
        message: f.1,
    }
}

/// The report issues for the findings about one file.
pub open spec fn file_issues(file: Seq<char>, fs: Seq<Finding>) -> Seq<IssueRecord> {
    fs.map_values(|f: Finding| issue_of_finding(file, f))
}

/// The report issues for each file's findings, file after file.
pub open spec fn spec_collect_issues(checked: Seq<(Seq<char>, Seq<Finding>)>) -> Seq<IssueRecord>
    decreases checked.len(),
{
    if checked.len() == 0 {
        seq![]
    } else {
        spec_collect_issues(checked.drop_last()) + file_issues(
            checked.last().0,
            checked.last().1,
        )
    }
}

/// The checked files as mathematical values.
pub open spec fn checked_views(checked: Seq<(String, Vec<CheckResult>)>) -> Seq<(Seq<char>, Seq<Finding>)> {
    checked.map_values(|c: (String, Vec<CheckResult>)| (c.0@, findings(c.1@)))
}

/// Turns the findings about each file (the file's display name and the
/// results of the checks on it) into report issues.
pub fn collect_issues(checked: &[(String, Vec<CheckResult>)]) -> (res: Vec<Issue>)
    ensures
        records(res@) == spec_collect_issues(checked_views(checked@)),
{
    let ghost cv = checked_views(checked@);
    let mut out: Vec<Issue> = Vec::new();
    let mut i: usize = 0;
    assert(records(out@) =~= Seq::<IssueRecord>::empty());
    while i < checked.len()
        invariant
            i <= checked.len(),
            cv == checked_views(checked@),
            records(out@) == spec_collect_issues(cv.take(i as int)),
        decreases checked.len() - i,
    {
        let file = &checked[i].0;
        let results = &checked[i].1;
        let ghost fs = findings(results@);
        let ghost base = records(out@);
        let mut j: usize = 0;
        while j < results.len()
            invariant
                i < checked.len(),
                file == &checked@[i as int].0,
                results == &checked@[i as int].1,
                fs == findings(results@),
                j <= results.len(),
                records(out@) == base + file_issues(file@, fs.take(j as int)),
            decreases results.len() - j,
        {
            let r = &results[j];
            let issue = Issue {
                file: file.clone(),
                line: line_of_message(r.message.as_str()),
                col: None,
                severity: string_of(chars_of(severity_text(r.severity)).as_slice()),
                message: r.message.clone(),
            };
            let ghost before = records(out@);
            out.push(issue);
            assert(fs.take(j + 1) == fs.take(j as int).push(r@));
            assert(records(out@) =~= before.push(issue_of_finding(file@, r@)));
            assert(file_issues(file@, fs.take(j + 1)) =~= file_issues(file@, fs.take(j as int)).push(
                issue_of_finding(file@, r@),
            ));
            j = j + 1;
        }
        assert(fs.take(results.len() as int) == fs);
        assert(cv.take(i + 1).drop_last() == cv.take(i as int));
        assert(cv.take(i + 1).last() == (file@, fs));
        i = i + 1;
    }
    assert(cv.take(checked.len() as int) == cv);
    out
}


// ---------------------------------------------------------------------
// Renderings
// ---------------------------------------------------------------------

/// The line column of a report: the number, or `-`.
pub open spec fn line_cell(line: Option<usize>) -> Seq<char> {
    match line {
        Some(n) => spec_decimal(n as nat),
        None => "-"@,
    }
}

fn push_line_cell(v: &mut Vec<char>, line: Option<usize>)
    ensures
        final(v)@ == old(v)@ + line_cell(line),
{
    match line {
        Some(n) => push_decimal(v, n),
        None => push_str(v, "-"),
    }
}

/// The rows of a report, each rendered by `row`, in order.
pub open spec fn rows(issues: Seq<IssueRecord>, row: spec_fn(IssueRecord) -> Seq<char>) -> Seq<char>
    decreases issues.len(),
{
    if issues.len() == 0 {
        seq![]
    } else {
        rows(issues.drop_last(), row) + row(issues.last())
    }
}

/// An HTML table row for an issue.
pub open spec fn html_row(i: IssueRecord) -> Seq<char> {
    "<tr><td>"@ + i.file + "</td><td>"@ + line_cell(i.line) + "</td><td class='severity "@
        + i.severity + "'>"@ + upper_case(i.severity) + "</td><td>"@ + i.message
        + "</td></tr>"@
}

/// The HTML document head and the title of the page.
pub open spec fn html_head() -> Seq<char> {
    "<!DOCTYPE html><html><head><title>prep Report</title>"@
        + "<style>body{font-family:sans-serif;margin:20px;background:#f5f5f5;}"@
        + ".error{color:#d32f2f;}.warning{color:#f57c00;}.info{color:#1976d2;}"@
        + "table{width:100%;border-collapse:collapse;background:#fff;box-shadow:0 2px 4px rgba(0,0,0,0.1);}"@
        + "th,td{padding:10px;text-align:left;border-bottom:1px solid #ddd;}"@
        + "th{background:#2c3e50;color:#fff;}"@
        + ".severity{font-weight:bold;}</style></head><body>"@ + "<h1>prep Report</h1>"@
}

/// The HTML report: head, total, and a table with a row per issue.
pub open spec fn spec_html_report(issues: Seq<IssueRecord>) -> Seq<char> {
    html_head() + "<p>Total issues: "@ + spec_decimal(issues.len()) + "</p>"@
        + "<table><tr><th>File</th><th>Line</th><th>Severity</th><th>Message</th></tr>"@ + rows(
        issues,
        |i: IssueRecord| html_row(i),
    ) + "</table></body></html>"@
}

/// A Markdown table row for an issue.
pub open spec fn markdown_row(i: IssueRecord) -> Seq<char> {
    "| "@ + i.file + " | "@ + line_cell(i.line) + " | "@ + upper_case(i.severity) + " | "@
        + i.message + " |\n"@
}

/// The Markdown report: title, total, and a table with a row per issue.
pub open spec fn spec_markdown_report(issues: Seq<IssueRecord>) -> Seq<char> {
    "# prep Report\n\n"@ + "Total issues: "@ + spec_decimal(issues.len()) + "\n\n"@
        + "| File | Line | Severity | Message |\n"@ + "|------|------|----------|---------|\n"@
        + rows(issues, |i: IssueRecord| markdown_row(i))
}

/// A CSV record for an issue.
pub open spec fn csv_row(i: IssueRecord) -> Seq<char> {
    i.file + ","@ + line_cell(i.line) + ","@ + i.severity + ","@ + i.message + "\n"@
}

/// The CSV report: a header record and a record per issue.
pub open spec fn spec_csv_report(issues: Seq<IssueRecord>) -> Seq<char> {
    "File,Line,Severity,Message\n"@ + rows(issues, |i: IssueRecord| csv_row(i))
}

fn html_row_chars(i: &Issue) -> (res: Vec<char>)
    ensures
        res@ == html_row(i@),
{
    let mut v = chars_of("<tr><td>");
    push_str(&mut v, i.file.as_str());
    push_str(&mut v, "</td><td>");
    push_line_cell(&mut v, i.line);
    push_str(&mut v, "</td><td class='severity ");
    push_str(&mut v, i.severity.as_str());
    push_str(&mut v, "'>");
    let upper = to_uppercase(i.severity.as_str());
    push_str(&mut v, upper.as_str());
    push_str(&mut v, "</td><td>");
    push_str(&mut v, i.message.as_str());
    push_str(&mut v, "</td></tr>");
    v
}

fn markdown_row_chars(i: &Issue) -> (res: Vec<char>)
    ensures
        res@ == markdown_row(i@),
{
    let mut v = chars_of("| ");
    push_str(&mut v, i.file.as_str());
    push_str(&mut v, " | ");
    push_line_cell(&mut v, i.line);
    push_str(&mut v, " | ");
    let upper = to_uppercase(i.severity.as_str());
    push_str(&mut v, upper.as_str());
    push_str(&mut v, " | ");
    push_str(&mut v, i.message.as_str());
    push_str(&mut v, " |\n");
    v
}

fn csv_row_chars(i: &Issue) -> (res: Vec<char>)
    ensures
        res@ == csv_row(i@),
{
    let mut v = chars_of(i.file.as_str());
    push_str(&mut v, ",");
    push_line_cell(&mut v, i.line);
    push_str(&mut v, ",");
    push_str(&mut v, i.severity.as_str());
    push_str(&mut v, ",");
    push_str(&mut v, i.message.as_str());
    push_str(&mut v, "\n");
    v
}

/// Renders the issues as an HTML page.
pub fn generate_html_report(issues: &[Issue]) -> (res: String)
    ensures
        res@ == spec_html_report(records(issues@)),
{
    let ghost rv = records(issues@);
    let mut v = chars_of("<!DOCTYPE html><html><head><title>prep Report</title>");
    push_str(&mut v, "<style>body{font-family:sans-serif;margin:20px;background:#f5f5f5;}");
    push_str(&mut v, ".error{color:#d32f2f;}.warning{color:#f57c00;}.info{color:#1976d2;}");
    push_str(
        &mut v,
        "table{width:100%;border-collapse:collapse;background:#fff;box-shadow:0 2px 4px rgba(0,0,0,0.1);}",
    );
    push_str(&mut v, "th,td{padding:10px;text-align:left;border-bottom:1px solid #ddd;}");
    push_str(&mut v, "th{background:#2c3e50;color:#fff;}");
    push_str(&mut v, ".severity{font-weight:bold;}</style></head><body>");
    push_str(&mut v, "<h1>prep Report</h1>");
    push_str(&mut v, "<p>Total issues: ");
    push_decimal(&mut v, issues.len());
    push_str(&mut v, "</p>");
    push_str(&mut v, "<table><tr><th>File</th><th>Line</th><th>Severity</th><th>Message</th></tr>");
    let ghost top = v@;
    let mut i: usize = 0;
    while i < issues.len()
        invariant
            i <= issues.len(),
            rv == records(issues@),
            v@ == top + rows(rv.take(i as int), |r: IssueRecord| html_row(r)),
        decreases issues.len() - i,
    {
        assert(rv.take(i + 1).drop_last() == rv.take(i as int));
        assert(rv.take(i + 1).last() == issues@[i as int]@);
        let row = html_row_chars(&issues[i]);
        push_chars(&mut v, row.as_slice());
        i = i + 1;
    }
    assert(rv.take(issues.len() as int) == rv);
    push_str(&mut v, "</table></body></html>");
    assert(v@ =~= spec_html_report(rv));
    string_of(v.as_slice())
}

/// Renders the issues as a Markdown document.
pub fn generate_markdown_report(issues: &[Issue]) -> (res: String)
    ensures
        res@ == spec_markdown_report(records(issues@)),
{
    let ghost rv = records(issues@);
    let mut v = chars_of("# prep Report\n\n");
    push_str(&mut v, "Total issues: ");
    push_decimal(&mut v, issues.len());
    push_str(&mut v, "\n\n");
    push_str(&mut v, "| File | Line | Severity | Message |\n");
    push_str(&mut v, "|------|------|----------|---------|\n");
    let ghost top = v@;
    let mut i: usize = 0;
    while i < issues.len()
        invariant
            i <= issues.len(),
            rv == records(issues@),
            v@ == top + rows(rv.take(i as int), |r: IssueRecord| markdown_row(r)),
        decreases issues.len() - i,
    {
        assert(rv.take(i + 1).drop_last() == rv.take(i as int));
        assert(rv.take(i + 1).last() == issues@[i as int]@);
        let row = markdown_row_chars(&issues[i]);
        push_chars(&mut v, row.as_slice());
        i = i + 1;
    }
    assert(rv.take(issues.len() as int) == rv);
    assert(v@ =~= spec_markdown_report(rv));
    string_of(v.as_slice())
}

/// A character as it stands in XML text or an attribute value: the five
/// special characters as entities, any other as itself.
pub open spec fn xml_char(c: char) -> Seq<char> {
    if c == '&' {
        "&amp;"@
    } else if c == '<' {
        "&lt;"@
    } else if c == '>' {
        "&gt;"@
    } else if c == '"' {
        "&quot;"@
    } else if c == '\'' {
        "&apos;"@
    } else {
        seq![c]
    }
}

/// A text escaped for XML, character by character.
pub open spec fn xml_escape(s: Seq<char>) -> Seq<char>
    decreases s.len(),
{
    if s.len() == 0 {
        seq![]
    } else {
        xml_escape(s.drop_last()) + xml_char(s.last())
    }
}

/// An XML element for an issue.
pub open spec fn xml_row(i: IssueRecord) -> Seq<char> {
    "  <issue file=\""@ + xml_escape(i.file) + "\" line=\""@ + line_cell(i.line)
        + "\" severity=\""@ + xml_escape(i.severity) + "\">"@ + xml_escape(i.message)
        + "</issue>\n"@
}

/// The XML report: a declaration, and an `issues` element with the total and
/// an `issue` element per issue.
pub open spec fn spec_xml_report(issues: Seq<IssueRecord>) -> Seq<char> {
    "<?xml version=\"1.0\" encoding=\"UTF-8\"?>\n<issues total=\""@ + spec_decimal(issues.len())
        + "\">\n"@ + rows(issues, |i: IssueRecord| xml_row(i)) + "</issues>\n"@
}

fn push_escaped(v: &mut Vec<char>, s: &str)
    ensures
        final(v)@ == old(v)@ + xml_escape(s@),
{
    let c = chars_of(s);
    let mut i: usize = 0;
    while i < c.len()
        invariant
            i <= c.len(),
            c@ == s@,
            v@ == old(v)@ + xml_escape(c@.take(i as int)),
        decreases c.len() - i,
    {
        assert(c@.take(i + 1).drop_last() == c@.take(i as int));
        let ch = c[i];
        if ch == '&' {
            push_str(v, "&amp;");
        } else if ch == '<' {
            push_str(v, "&lt;");
        } else if ch == '>' {
            push_str(v, "&gt;");
        } else if ch == '"' {
            push_str(v, "&quot;");
        } else if ch == '\'' {
            push_str(v, "&apos;");
        } else {
            v.push(ch);
        }
        assert(v@ =~= old(v)@ + xml_escape(c@.take(i + 1)));
        i = i + 1;
    }
    assert(c@.take(c.len() as int) == c@);
}

fn xml_row_chars(i: &Issue) -> (res: Vec<char>)
    ensures
        res@ == xml_row(i@),
{
    let mut v = chars_of("  <issue file=\"");
    push_escaped(&mut v, i.file.as_str());
    push_str(&mut v, "\" line=\"");
    push_line_cell(&mut v, i.line);
    push_str(&mut v, "\" severity=\"");
    push_escaped(&mut v, i.severity.as_str());
    push_str(&mut v, "\">");
    push_escaped(&mut v, i.message.as_str());
    push_str(&mut v, "</issue>\n");
    v
}

/// Renders the issues as an XML document.
pub fn generate_xml_report(issues: &[Issue]) -> (res: String)
    ensures
        res@ == spec_xml_report(records(issues@)),
{
    let ghost rv = records(issues@);
    let mut v = chars_of("<?xml version=\"1.0\" encoding=\"UTF-8\"?>\n<issues total=\"");
    push_decimal(&mut v, issues.len());
    push_str(&mut v, "\">\n");
    let ghost top = v@;
    let mut i: usize = 0;
    while i < issues.len()
        invariant
            i <= issues.len(),
            rv == records(issues@),
            v@ == top + rows(rv.take(i as int), |r: IssueRecord| xml_row(r)),
        decreases issues.len() - i,
    {
        assert(rv.take(i + 1).drop_last() == rv.take(i as int));
        assert(rv.take(i + 1).last() == issues@[i as int]@);
        let row = xml_row_chars(&issues[i]);
        push_chars(&mut v, row.as_slice());
        i = i + 1;
    }
    assert(rv.take(issues.len() as int) == rv);
    push_str(&mut v, "</issues>\n");
    assert(v@ =~= spec_xml_report(rv));
    string_of(v.as_slice())
}

/// Renders the issues as CSV.
pub fn generate_csv_report(issues: &[Issue]) -> (res: String)
    ensures
        res@ == spec_csv_report(records(issues@)),
{
    let ghost rv = records(issues@);
    let mut v = chars_of("File,Line,Severity,Message\n");
    let ghost top = v@;
    let mut i: usize = 0;
    while i < issues.len()
        invariant
            i <= issues.len(),
            rv == records(issues@),
            v@ == top + rows(rv.take(i as int), |r: IssueRecord| csv_row(r)),
        decreases issues.len() - i,
    {
        assert(rv.take(i + 1).drop_last() == rv.take(i as int));
        assert(rv.take(i + 1).last() == issues@[i as int]@);
        let row = csv_row_chars(&issues[i]);
        push_chars(&mut v, row.as_slice());
        i = i + 1;
    }
    assert(rv.take(issues.len() as int) == rv);
    assert(v@ =~= spec_csv_report(rv));
    string_of(v.as_slice())
}


// ---------------------------------------------------------------------
// Summary and statistics
// ---------------------------------------------------------------------

/// How many issues have severity `sev`.
pub open spec fn count_with(issues: Seq<IssueRecord>, sev: Seq<char>) -> nat
    decreases issues.len(),
{
    if issues.len() == 0 {
        0
    } else {
        count_with(issues.drop_last(), sev) + if issues.last().severity == sev {
            1nat
        } else {
            0nat
        }
    }
}

/// The indented messages of the issues with severity `sev`, in order.
pub open spec fn messages_with(issues: Seq<IssueRecord>, sev: Seq<char>) -> Seq<Seq<char>>
    decreases issues.len(),
{
    if issues.len() == 0 {
        seq![]
    } else {
        messages_with(issues.drop_last(), sev) + if issues.last().severity == sev {
            seq!["  "@ + issues.last().message]
        } else {
            seq![]
        }
    }
}

/// The lines of the summary: the number of files scanned and of errors,
/// warnings and infos; when verbose, the messages of the errors and of the
/// warnings, each list under a heading when it is not empty.
pub open spec fn spec_summary(files: nat, issues: Seq<IssueRecord>, verbose: bool) -> Seq<Seq<char>> {
    let e = count_with(issues, "error"@);
    let w = count_with(issues, "warning"@);
    let i = count_with(issues, "info"@);
    seq![
        "Repository Summary:"@,
        "  Files scanned: "@ + spec_decimal(files),
        "  Errors: "@ + spec_decimal(e),
        "  Warnings: "@ + spec_decimal(w),
        "  Infos: "@ + spec_decimal(i),
    ] + if verbose {
        (if e > 0 {
            seq!["\nErrors:"@] + messages_with(issues, "error"@)
        } else {
            seq![]
        }) + (if w > 0 {
            seq!["\nWarnings:"@] + messages_with(issues, "warning"@)
        } else {
            seq![]
        })
    } else {
        seq![]
    }
}

/// The views of a list of strings.
pub open spec fn lines_view(v: Seq<String>) -> Seq<Seq<char>> {
    v.map_values(|s: String| s@)
}

fn push_out(out: &mut Vec<String>, line: &[char])
    ensures
        lines_view(final(out)@) == lines_view(old(out)@).push(line@),
{
    out.push(string_of(line));
    assert(lines_view(out@) =~= lines_view(old(out)@).push(line@));
}

fn count_severity(issues: &[Issue], sev: &str) -> (res: usize)
    ensures
        res == count_with(records(issues@), sev@),
{
    let ghost rv = records(issues@);
    let mut n: usize = 0;
    let mut i: usize = 0;
    while i < issues.len()
        invariant
            i <= issues.len(),
            rv == records(issues@),
            n == count_with(rv.take(i as int), sev@),
            n <= i,
        decreases issues.len() - i,
    {
        assert(rv.take(i + 1).drop_last() == rv.take(i as int));
        assert(rv.take(i + 1).last() == issues@[i as int]@);
        if same_text(issues[i].severity.as_str(), sev) {
            n = n + 1;
        }
        i = i + 1;
    }
    assert(rv.take(issues.len() as int) == rv);
    n
}

fn push_messages(out: &mut Vec<String>, issues: &[Issue], sev: &str)
    ensures
        lines_view(final(out)@) == lines_view(old(out)@) + messages_with(records(issues@), sev@),
{
    let ghost rv = records(issues@);
    let mut i: usize = 0;
    assert(lines_view(out@) =~= lines_view(old(out)@) + messages_with(rv.take(0), sev@));
    while i < issues.len()
        invariant
            i <= issues.len(),
            rv == records(issues@),
            lines_view(out@) == lines_view(old(out)@) + messages_with(rv.take(i as int), sev@),
        decreases issues.len() - i,
    {
        assert(rv.take(i + 1).drop_last() == rv.take(i as int));
        assert(rv.take(i + 1).last() == issues@[i as int]@);
        if same_text(issues[i].severity.as_str(), sev) {
            let mut m = chars_of("  ");
            push_str(&mut m, issues[i].message.as_str());
            push_out(out, m.as_slice());
        }
        i = i + 1;
    }
    assert(rv.take(issues.len() as int) == rv);
}

fn counted_line(label: &str, n: usize) -> (res: Vec<char>)
    ensures
        res@ == label@ + spec_decimal(n as nat),
{
    let mut v = chars_of(label);
    push_decimal(&mut v, n);
    v
}

/// The lines of the summary of the issues found in `files` scanned files.
pub fn summary(files: usize, issues: &[Issue], verbose: bool) -> (res: Vec<String>)
    ensures
        lines_view(res@) == spec_summary(files as nat, records(issues@), verbose),
{
    let e = count_severity(issues, "error");
    let w = count_severity(issues, "warning");
    let i = count_severity(issues, "info");
    let mut out: Vec<String> = Vec::new();
    assert(lines_view(out@) =~= Seq::<Seq<char>>::empty());
    push_out(&mut out, chars_of("Repository Summary:").as_slice());
    push_out(&mut out, counted_line("  Files scanned: ", files).as_slice());
    push_out(&mut out, counted_line("  Errors: ", e).as_slice());
    push_out(&mut out, counted_line("  Warnings: ", w).as_slice());
    push_out(&mut out, counted_line("  Infos: ", i).as_slice());
    let ghost head = lines_view(out@);
    if verbose {
        if e > 0 {
            push_out(&mut out, chars_of("\nErrors:").as_slice());
            push_messages(&mut out, issues, "error");
        }
        let ghost mid = lines_view(out@);
        if w > 0 {
            push_out(&mut out, chars_of("\nWarnings:").as_slice());
            push_messages(&mut out, issues, "warning");
        }
        assert(lines_view(out@) =~= spec_summary(files as nat, records(issues@), verbose));
    } else {
        assert(lines_view(out@) =~= spec_summary(files as nat, records(issues@), verbose));
    }
    out
}

/// The files of the issues, in order.
pub open spec fn issue_files(issues: Seq<IssueRecord>) -> Seq<Seq<char>> {
    issues.map_values(|i: IssueRecord| i.file)
}

/// A line of the statistics: a file and how many issues it has.
pub open spec fn stats_line(c: Count) -> Seq<char> {
    "  "@ + c.0 + ": "@ + spec_decimal(c.1) + " issues"@
}

/// How many entries of the ranking are shown: `top` (ten by default), or all
/// of them when there are fewer.
pub open spec fn shown(top: Option<usize>, len: nat) -> nat {
    let n = match top {
        Some(t) => t as nat,
        None => 10,
    };
    if n < len {
        n
    } else {
        len
    }
}

/// The lines of the statistics: the files with the most issues, most first,
/// at most `top` of them (ten by default), then the number of issues.
pub open spec fn spec_stats(issues: Seq<IssueRecord>, top: Option<usize>) -> Seq<Seq<char>> {
    let n = match top {
        Some(t) => t as nat,
        None => 10,
    };
    let ranked = rank_desc(spec_tally(issue_files(issues)));
    seq!["Top "@ + spec_decimal(n) + " files with most issues:"@] + ranked.take(
        shown(top, ranked.len()) as int,
    ).map_values(|c: Count| stats_line(c)) + seq!["\nTotal issues: "@ + spec_decimal(issues.len())]
}

/// The lines of the statistics on the issues.
pub fn stats(issues: &[Issue], top: Option<usize>) -> (res: Vec<String>)
    ensures
        lines_view(res@) == spec_stats(records(issues@), top),
{
    let ghost rv = records(issues@);
    let n: usize = match top {
        Some(t) => t,
        None => 10,
    };
    let mut files: Vec<String> = Vec::new();
    let mut i: usize = 0;
    while i < issues.len()
        invariant
            i <= issues.len(),
            rv == records(issues@),
            key_views(files@) == issue_files(rv.take(i as int)),
        decreases issues.len() - i,
    {
        let ghost before = key_views(files@);
        let f = issues[i].file.clone();
        assert(f@ == rv[i as int].file);
        files.push(f);
        assert(key_views(files@) =~= before.push(rv[i as int].file));
        assert(rv.take(i + 1) == rv.take(i as int).push(rv[i as int]));
        i = i + 1;
        assert(key_views(files@) =~= issue_files(rv.take(i as int)));
    }
    assert(rv.take(issues.len() as int) == rv);
    let ranked = rank(&tally(files.as_slice()));
    let ghost rk = count_views(ranked@);
    let mut out: Vec<String> = Vec::new();
    let mut head = chars_of("Top ");
    push_decimal(&mut head, n);
    push_str(&mut head, " files with most issues:");
    assert(lines_view(out@) =~= Seq::<Seq<char>>::empty());
    push_out(&mut out, head.as_slice());
    let ghost top_line = lines_view(out@);
    let shown_n: usize = if n < ranked.len() {
        n
    } else {
        ranked.len()
    };
    let mut j: usize = 0;
    while j < shown_n
        invariant
            j <= shown_n,
            shown_n <= ranked.len(),
            rk == count_views(ranked@),
            lines_view(out@) == top_line + rk.take(j as int).map_values(|c: Count| stats_line(c)),
        decreases shown_n - j,
    {
        let mut line = chars_of("  ");
        push_str(&mut line, ranked[j].0.as_str());
        push_str(&mut line, ": ");
        push_decimal(&mut line, ranked[j].1);
        push_str(&mut line, " issues");
        push_out(&mut out, line.as_slice());
        assert(rk.take(j + 1) == rk.take(j as int).push(rk[j as int]));
        j = j + 1;
        assert(lines_view(out@) =~= top_line + rk.take(j as int).map_values(|c: Count| stats_line(c)));
    }
    let mut total_line = chars_of("\nTotal issues: ");
    push_decimal(&mut total_line, issues.len());
    push_out(&mut out, total_line.as_slice());
    assert(lines_view(out@) =~= spec_stats(rv, top));
    out
}


// ---------------------------------------------------------------------
// Formats, files and imports
// ---------------------------------------------------------------------

/// The formats a report can be written in.
#[derive(Clone, Copy, Debug, PartialEq, Eq, Structural)]
pub enum ReportFormat {
    Html,
    Json,
    Markdown,
    Csv,
    Xml,
}

/// The extensions of files a report leaves out (images and binaries).
pub open spec fn skipped_extension(ext: Seq<char>) -> bool {
    ext == "png"@ || ext == "jpg"@ || ext == "jpeg"@ || ext == "gif"@ || ext == "ico"@ || ext
        == "bin"@
}

/// Whether a file with this extension (`None` for none) goes into a report.
pub fn report_file_kept(ext: Option<&str>) -> (res: bool)
    ensures
        res == match ext {
            Some(e) => !skipped_extension(e@),
            None => true,
        },
{
    match ext {
        Some(e) => !(same_text(e, "png") || same_text(e, "jpg") || same_text(e, "jpeg") || same_text(
            e,
            "gif",
        ) || same_text(e, "ico") || same_text(e, "bin")),
        None => true,
    }
}

/// The report format named by `format` (HTML by default and for unknown
/// names).
pub open spec fn spec_report_format(format: Option<Seq<char>>) -> ReportFormat {
    let f = match format {
        Some(f) => f,
        None => "html"@,
    };
    if f == "json"@ {
        ReportFormat::Json
    } else if f == "markdown"@ {
        ReportFormat::Markdown
    } else if f == "csv"@ {
        ReportFormat::Csv
    } else {
        ReportFormat::Html
    }
}

/// The view of an optional string slice.
pub open spec fn opt_str(s: Option<&str>) -> Option<Seq<char>> {
    match s {
        Some(t) => Some(t@),
        None => None,
    }
}

/// The format of `prep report --format <name>`.
pub fn report_format(format: Option<&str>) -> (res: ReportFormat)
    ensures
        res == spec_report_format(opt_str(format)),
{
    let f = match format {
        Some(f) => f,
        None => "html",
    };
    if same_text(f, "json") {
        ReportFormat::Json
    } else if same_text(f, "markdown") {
        ReportFormat::Markdown
    } else if same_text(f, "csv") {
        ReportFormat::Csv
    } else {
        ReportFormat::Html
    }
}

/// The format of `prep export --format <name>`: JSON or XML when asked for,
/// CSV otherwise.
pub open spec fn spec_export_format(format: Option<Seq<char>>) -> ReportFormat {
    if format == Some("json"@) {
        ReportFormat::Json
    } else if format == Some("xml"@) {
        ReportFormat::Xml
    } else {
        ReportFormat::Csv
    }
}

/// The format of `prep export --format <name>`.
pub fn export_format(format: Option<&str>) -> (res: ReportFormat)
    ensures
        res == spec_export_format(opt_str(format)),
{
    match format {
        Some(f) => if same_text(f, "json") {
            ReportFormat::Json
        } else if same_text(f, "xml") {
            ReportFormat::Xml
        } else {
            ReportFormat::Csv
        },
        None => ReportFormat::Csv,
    }
}

/// The path a report is written to: `output`, or `default`.
pub fn output_path(output: Option<&str>, default: &str) -> (res: String)
    ensures
        res@ == match opt_str(output) {
            Some(o) => o,
            None => default@,
        },
{
    match output {
        Some(o) => o.to_owned(),
        None => default.to_owned(),
    }
}

/// The text of a report in a format this library renders itself; `None` for
/// JSON, which is rendered from the issues by a serializer.
pub fn render_report(format: ReportFormat, issues: &[Issue]) -> (res: Option<String>)
    ensures
        text_view(res) == spec_rendered(format, records(issues@)),
        match res {
            Some(r) => match format {
                ReportFormat::Json => false,
                ReportFormat::Html => r@ == spec_html_report(records(issues@)),
                ReportFormat::Markdown => r@ == spec_markdown_report(records(issues@)),
                ReportFormat::Csv => r@ == spec_csv_report(records(issues@)),
                ReportFormat::Xml => r@ == spec_xml_report(records(issues@)),
            },
            None => format == ReportFormat::Json,
        },
{
    match format {
        ReportFormat::Json => None,
        ReportFormat::Html => Some(generate_html_report(issues)),
        ReportFormat::Markdown => Some(generate_markdown_report(issues)),
        ReportFormat::Csv => Some(generate_csv_report(issues)),
        ReportFormat::Xml => Some(generate_xml_report(issues)),
    }
}

/// The text of a report in a format this library renders itself; `None`
/// for JSON, which is rendered from the issues by a serializer.
pub open spec fn spec_rendered(format: ReportFormat, issues: Seq<IssueRecord>) -> Option<Seq<char>> {
    match format {
        ReportFormat::Json => None,
        ReportFormat::Html => Some(spec_html_report(issues)),
        ReportFormat::Markdown => Some(spec_markdown_report(issues)),
        ReportFormat::Csv => Some(spec_csv_report(issues)),
        ReportFormat::Xml => Some(spec_xml_report(issues)),
    }
}

/// The view of an optional string.
pub open spec fn text_view(t: Option<String>) -> Option<Seq<char>> {
    match t {
        Some(x) => Some(x@),
        None => None,
    }
}

/// What a report command writes and says: the path, the report text (`None`
/// for JSON) and the message.
pub struct ReportJob {
    pub path: String,
    pub text: Option<String>,
    pub message: String,
}

/// What `prep report` writes and says: the report in the chosen format
/// (HTML by default and for unknown names), to the output path
/// (`report.html` by default), and `Report saved to <path>`.
pub open spec fn spec_report_job(format: Option<Seq<char>>, output: Option<Seq<char>>, issues: Seq<IssueRecord>) -> (
    Seq<char>,
    Option<Seq<char>>,
    Seq<char>,
) {
    let path = match output {
        Some(o) => o,
        None => "report.html"@,
    };
    (path, spec_rendered(spec_report_format(format), issues), "Report saved to "@ + path)
}

/// What `prep export` writes and says: the issues as JSON, XML or CSV (the
/// default), to the output path (`issues.csv` by default), and `Exported
/// issues to <path>`.
pub open spec fn spec_export_job(format: Option<Seq<char>>, output: Option<Seq<char>>, issues: Seq<IssueRecord>) -> (
    Seq<char>,
    Option<Seq<char>>,
    Seq<char>,
) {
    let path = match output {
        Some(o) => o,
        None => "issues.csv"@,
    };
    (path, spec_rendered(spec_export_format(format), issues), "Exported issues to "@ + path)
}

fn job(path: String, format: ReportFormat, issues: &[Issue], label: &str) -> (res: ReportJob)
    ensures
        res.path@ == path@,
        text_view(res.text) == spec_rendered(format, records(issues@)),
        res.message@ == label@ + path@,
{
    let text = render_report(format, issues);
    let mut m = chars_of(label);
    push_str(&mut m, path.as_str());
    let message = string_of(m.as_slice());
    ReportJob { path, text, message }
}

/// What `prep report --format <f> --output <o>` writes and says about the
/// collected issues.
pub fn generate_report(format: Option<&str>, output: Option<&str>, issues: &[Issue]) -> (res: ReportJob)
    ensures
        (res.path@, text_view(res.text), res.message@) == spec_report_job(
            opt_str(format),
            opt_str(output),
            records(issues@),
        ),
{
    let fmt = report_format(format);
    let path = output_path(output, "report.html");
    job(path, fmt, issues, "Report saved to ")
}

/// What `prep export --format <f> --output <o>` writes and says about the
/// collected issues.
pub fn export_issues(format: Option<&str>, output: Option<&str>, issues: &[Issue]) -> (res: ReportJob)
    ensures
        (res.path@, text_view(res.text), res.message@) == spec_export_job(
            opt_str(format),
            opt_str(output),
            records(issues@),
        ),
{
    let fmt = export_format(format);
    let path = output_path(output, "issues.csv");
    job(path, fmt, issues, "Exported issues to ")
}

/// `prep report` with no format and no output writes the HTML report to
/// `report.html` and says `Report saved to report.html`; a format other
/// than json, markdown or csv also gives the HTML report.
pub proof fn lemma_report_defaults(issues: Seq<IssueRecord>, f: Seq<char>, output: Option<Seq<char>>)
    ensures
        spec_report_job(None, None, issues) == ("report.html"@, Some(spec_html_report(issues)),
        "Report saved to report.html"@),
        f != "json"@ && f != "markdown"@ && f != "csv"@ ==> spec_report_job(Some(f), output, issues).1
            == Some(spec_html_report(issues)),
{
    reveal_strlit("html");
    reveal_strlit("json");
    reveal_strlit("markdown");
    reveal_strlit("csv");
    assert("html"@ != "json"@) by {
        assert("html"@[0] != "json"@[0]);
    }
    assert("html"@ != "markdown"@) by {
        assert("html"@.len() != "markdown"@.len());
    }
    assert("html"@ != "csv"@) by {
        assert("html"@.len() != "csv"@.len());
    }
    assert("Report saved to "@ + "report.html"@ =~= "Report saved to report.html"@) by {
        reveal_strlit("Report saved to ");
        reveal_strlit("report.html");
        reveal_strlit("Report saved to report.html");
    }
}

/// What importing a file reports: the number of issues in a JSON array (none
/// for another JSON value), or that the text is not JSON.
pub open spec fn spec_import_message(content: Seq<char>) -> Seq<char> {
    match json_array_len(content) {
        Some(n) => "Imported "@ + spec_decimal(
            match n {
                Some(k) => k,
                None => 0,
            },
        ) + " issues"@,
        None => "Failed to parse JSON. Only JSON import is supported."@,
    }
}

/// The message of `prep import` for the content of the file.
pub fn import_issues(content: &str) -> (res: String)
    ensures
        res@ == spec_import_message(content@),
{
    match parse_json_array_len(content) {
        Some(n) => {
            let k: usize = match n {
                Some(k) => k,
                None => 0,
            };
            let mut m = chars_of("Imported ");
            push_decimal(&mut m, k);
            push_str(&mut m, " issues");
            string_of(m.as_slice())
        },
        None => string_of(chars_of("Failed to parse JSON. Only JSON import is supported.").as_slice()),
    }
}


// ---------------------------------------------------------------------
// Laws
// ---------------------------------------------------------------------

proof fn lemma_replace_absent(s: Seq<char>, pat: Seq<char>, rep: Seq<char>)
    requires
        pat.len() > 0,
        forall|i: int| 0 <= i < s.len() ==> s[i] != pat[0],
    ensures
        spec_replace(s, pat, rep) == s,
    decreases s.len(),
{
    if s.len() > 0 {
        assert(!spec_starts_with(s, pat)) by {
            if spec_starts_with(s, pat) {
                assert(s.subrange(0, pat.len() as int)[0] == s[0]);
            }
        }
        lemma_replace_absent(s.drop_first(), pat, rep);
        assert(s == seq![s[0]] + s.drop_first());
    }
}

proof fn lemma_trim_digits(s: Seq<char>)
    requires
        crate::text::all_digits(s),
    ensures
        spec_trim(s) == s,
{
    if s.len() > 0 {
        assert(crate::text::is_digit(s[s.len() - 1]));
        assert(crate::text::is_digit(s[0]));
    }
    assert(crate::text::spec_trim_end(s) == s);
}

/// The report reads back the line number of every per-line finding: a
/// message made of `Line `, a number and a tail starting with `':'` has that
/// number as its line.
pub proof fn lemma_line_number_read_back(n: usize, tail: Seq<char>)
    requires
        tail.len() > 0,
        tail[0] == ':',
    ensures
        message_line(crate::checks::line_message(n as nat, tail)) == Some(n),
{
    reveal_strlit("Line ");
    reveal_strlit(":");
    let d = spec_decimal(n as nat);
    crate::text::lemma_parse_decimal(n as nat);
    let m = crate::checks::line_message(n as nat, tail);
    let k: int = 5 + d.len() as int;
    assert(m.subrange(0, 5) == "Line "@);
    assert(crate::text::occurs_at(m, "Line "@, 0));
    assert(spec_contains(m, "Line "@));
    assert(m[k] == ':');
    assert(crate::text::occurs_at(m, ":"@, k)) by {
        assert(m.subrange(k, k + 1) =~= ":"@);
    }
    assert forall|j: int| 0 <= j < k implies !crate::text::occurs_at(m, ":"@, j) by {
        if crate::text::occurs_at(m, ":"@, j) {
            assert(m.subrange(j, j + 1)[0] == m[j]);
            if j >= 5 {
                assert(m[j] == d[j - 5]);
                assert(crate::text::is_digit(d[j - 5]));
            }
        }
    }
    crate::text::lemma_find_from(m, ":"@, 0);
    assert(spec_find(m, ":"@) == Some(k));
    let head = m.subrange(0, k);
    assert(head == "Line "@ + d);
    assert(head.subrange(0, 5) =~= "Line "@);
    assert(crate::text::spec_starts_with(head, "Line "@));
    assert(head.skip(5) == d);
    assert forall|i: int| 0 <= i < d.len() implies d[i] != "Line "@[0] by {
        assert(crate::text::is_digit(d[i]));
    }
    lemma_replace_absent(d, "Line "@, seq![]);
    assert(spec_replace(head, "Line "@, seq![]) == seq![] + d);
    assert(seq![] + d == d);
    lemma_trim_digits(d);
}


/// Every issue has one of the three severity names.
pub open spec fn named_severities(issues: Seq<IssueRecord>) -> bool {
    forall|i: int| 0 <= i < issues.len() ==> {
        let s = #[trigger] issues[i].severity;
        s == "error"@ || s == "warning"@ || s == "info"@
    }
}

proof fn lemma_counts_cover(issues: Seq<IssueRecord>)
    requires
        named_severities(issues),
    ensures
        count_with(issues, "error"@) + count_with(issues, "warning"@) + count_with(issues, "info"@)
            == issues.len(),
    decreases issues.len(),
{
    reveal_strlit("error");
    reveal_strlit("warning");
    reveal_strlit("info");
    if issues.len() > 0 {
        let r = issues.drop_last();
        assert forall|i: int| 0 <= i < r.len() implies {
            let s = #[trigger] r[i].severity;
            s == "error"@ || s == "warning"@ || s == "info"@
        } by {
            assert(r[i] == issues[i]);
        }
        lemma_counts_cover(r);
        let s = issues[issues.len() - 1].severity;
        assert("error"@[0] != "warning"@[0]);
        assert("error"@[0] != "info"@[0]);
        assert("warning"@[0] != "info"@[0]);
    }
}

proof fn lemma_collect_named(checked: Seq<(Seq<char>, Seq<Finding>)>)
    ensures
        named_severities(spec_collect_issues(checked)),
    decreases checked.len(),
{
    if checked.len() > 0 {
        lemma_collect_named(checked.drop_last());
        let a = spec_collect_issues(checked.drop_last());
        let b = file_issues(checked.last().0, checked.last().1);
        assert forall|i: int| 0 <= i < (a + b).len() implies {
            let s = #[trigger] (a + b)[i].severity;
            s == "error"@ || s == "warning"@ || s == "info"@
        } by {
            if i >= a.len() {
                let f = checked.last().1[i - a.len()];
                assert((a + b)[i] == issue_of_finding(checked.last().0, f));
                match f.0 {
                    Severity::Error => {},
                    Severity::Warning => {},
                    Severity::Info => {},
                }
            } else {
                assert((a + b)[i] == a[i]);
            }
        }
    }
}

/// The summary accounts for every issue found by the checks: its numbers of
/// errors, warnings and infos add up to the number of issues.
pub proof fn lemma_summary_counts_all(checked: Seq<(Seq<char>, Seq<Finding>)>)
    ensures
        ({
            let issues = spec_collect_issues(checked);
            count_with(issues, "error"@) + count_with(issues, "warning"@) + count_with(
                issues,
                "info"@,
            ) == issues.len()
        }),
{
    lemma_collect_named(checked);
    lemma_counts_cover(spec_collect_issues(checked));
}

/// The statistics rank the files by decreasing number of issues, and the
/// numbers of all ranked files add up to the number of issues.
pub proof fn lemma_stats_ranking(issues: Seq<IssueRecord>)
    ensures
        ({
            let ranked = rank_desc(spec_tally(issue_files(issues)));
            &&& crate::tally::is_desc(ranked)
            &&& crate::tally::total(ranked) == issues.len()
        }),
{
    crate::tally::lemma_tally_total(issue_files(issues));
    crate::tally::lemma_rank_desc(spec_tally(issue_files(issues)));
}

/// The number of findings over all the checked files.
pub open spec fn findings_count(checked: Seq<(Seq<char>, Seq<Finding>)>) -> nat
    decreases checked.len(),
{
    if checked.len() == 0 {
        0
    } else {
        findings_count(checked.drop_last()) + checked.last().1.len()
    }
}

proof fn lemma_collect_len(checked: Seq<(Seq<char>, Seq<Finding>)>)
    ensures
        spec_collect_issues(checked).len() == findings_count(checked),
    decreases checked.len(),
{
    if checked.len() > 0 {
        lemma_collect_len(checked.drop_last());
    }
}

proof fn lemma_collect_prefix(checked: Seq<(Seq<char>, Seq<Finding>)>, k: int)
    requires
        0 <= k <= checked.len(),
    ensures
        findings_count(checked.take(k)) <= findings_count(checked),
        spec_collect_issues(checked).subrange(0, findings_count(checked.take(k)) as int)
            == spec_collect_issues(checked.take(k)),
    decreases checked.len(),
{
    lemma_collect_len(checked);
    lemma_collect_len(checked.take(k));
    if k == checked.len() {
        assert(checked.take(k) == checked);
        assert(spec_collect_issues(checked).subrange(0, findings_count(checked) as int)
            =~= spec_collect_issues(checked));
    } else {
        let d = checked.drop_last();
        lemma_collect_prefix(d, k);
        assert(d.take(k) == checked.take(k));
        lemma_collect_len(d);
        assert(spec_collect_issues(checked).subrange(0, findings_count(checked.take(k)) as int)
            =~= spec_collect_issues(d).subrange(0, findings_count(d.take(k)) as int));
    }
}

/// Collecting keeps every finding of every file, file after file and
/// finding after finding: finding `r` of file `f` becomes the issue after
/// those of the files before it and the findings before it, with the
/// file's name, the severity's name, the message, no column, and the line
/// number the message names (a message `Line <n>:...` gives `n`; a message
/// without `Line ` gives none).
pub proof fn lemma_collect_issues_layout(checked: Seq<(Seq<char>, Seq<Finding>)>, f: int, r: int)
    requires
        0 <= f < checked.len(),
        0 <= r < checked[f].1.len(),
    ensures
        spec_collect_issues(checked).len() == findings_count(checked),
        findings_count(checked.take(f)) + r < findings_count(checked),
        ({
            let i = spec_collect_issues(checked)[findings_count(checked.take(f)) + r];
            let fd = checked[f].1[r];
            &&& i.file == checked[f].0
            &&& i.severity == severity_name(fd.0)
            &&& i.message == fd.1
            &&& i.col is None
            &&& i.line == message_line(fd.1)
            &&& (forall|n: usize, tail: Seq<char>|
                #[trigger] crate::checks::line_message(n as nat, tail) == fd.1 && tail.len() > 0
                    && tail[0] == ':' ==> i.line == Some(n))
            &&& (!spec_contains(fd.1, "Line "@) ==> i.line is None)
        }),
{
    lemma_collect_len(checked);
    lemma_collect_prefix(checked, f + 1);
    lemma_collect_len(checked.take(f));
    let t = checked.take(f + 1);
    assert(t.drop_last() == checked.take(f));
    assert(t.last() == checked[f]);
    assert(findings_count(t) == findings_count(checked.take(f)) + checked[f].1.len());
    let whole = spec_collect_issues(checked);
    let lo = findings_count(checked.take(f)) as int;
    assert(spec_collect_issues(t) == spec_collect_issues(checked.take(f)) + file_issues(
        checked[f].0,
        checked[f].1,
    ));
    assert(whole[lo + r] == whole.subrange(0, findings_count(t) as int)[lo + r]);
    assert(spec_collect_issues(t)[lo + r] == file_issues(checked[f].0, checked[f].1)[r]);
    let fd = checked[f].1[r];
    assert forall|n: usize, tail: Seq<char>|
        #[trigger] crate::checks::line_message(n as nat, tail) == fd.1 && tail.len() > 0 && tail[0]
            == ':' implies message_line(fd.1) == Some(n) by {
        lemma_line_number_read_back(n, tail);
    }
}

/// Whether an issue has severity `sev`.
pub open spec fn of_severity(sev: Seq<char>) -> spec_fn(IssueRecord) -> bool {
    |i: IssueRecord| i.severity == sev
}

/// How a message is listed in the verbose summary.
pub open spec fn listed(i: IssueRecord) -> Seq<char> {
    "  "@ + i.message
}

proof fn lemma_count_with_filter(issues: Seq<IssueRecord>, sev: Seq<char>)
    ensures
        count_with(issues, sev) == issues.filter(of_severity(sev)).len(),
    decreases issues.len(),
{
    reveal(Seq::filter);
    if issues.len() > 0 {
        lemma_count_with_filter(issues.drop_last(), sev);
    }
}

proof fn lemma_messages_with_filter(issues: Seq<IssueRecord>, sev: Seq<char>)
    ensures
        messages_with(issues, sev) == issues.filter(of_severity(sev)).map_values(|i: IssueRecord| listed(i)),
    decreases issues.len(),
{
    reveal(Seq::filter);
    if issues.len() > 0 {
        lemma_messages_with_filter(issues.drop_last(), sev);
        let d = issues.drop_last().filter(of_severity(sev));
        if issues.last().severity == sev {
            assert(d.push(issues.last()).map_values(|i: IssueRecord| listed(i)) =~= d.map_values(
                |i: IssueRecord| listed(i),
            ) + seq!["  "@ + issues.last().message]);
        } else {
            assert(d.map_values(|i: IssueRecord| listed(i)) =~= d.map_values(|i: IssueRecord| listed(i))
                + Seq::<Seq<char>>::empty());
        }
    }
}

/// The summary counts each issue of a severity once, and the verbose summary
/// lists the message of every error and then of every warning, in order,
/// each list under its heading when it is not empty.
pub proof fn lemma_summary_lists_every_issue(files: nat, issues: Seq<IssueRecord>, verbose: bool)
    ensures
        ({
            let errs = issues.filter(of_severity("error"@));
            let warns = issues.filter(of_severity("warning"@));
            let infos = issues.filter(of_severity("info"@));
            spec_summary(files, issues, verbose) == seq![
                "Repository Summary:"@,
                "  Files scanned: "@ + spec_decimal(files),
                "  Errors: "@ + spec_decimal(errs.len()),
                "  Warnings: "@ + spec_decimal(warns.len()),
                "  Infos: "@ + spec_decimal(infos.len()),
            ] + if verbose {
                (if errs.len() > 0 {
                    seq!["\nErrors:"@] + errs.map_values(|i: IssueRecord| listed(i))
                } else {
                    seq![]
                }) + (if warns.len() > 0 {
                    seq!["\nWarnings:"@] + warns.map_values(|i: IssueRecord| listed(i))
                } else {
                    seq![]
                })
            } else {
                seq![]
            }
        }),
{
    lemma_count_with_filter(issues, "error"@);
    lemma_count_with_filter(issues, "warning"@);
    lemma_count_with_filter(issues, "info"@);
    lemma_messages_with_filter(issues, "error"@);
    lemma_messages_with_filter(issues, "warning"@);
}

} // verus!

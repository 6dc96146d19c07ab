//! Reading the output of a build tool (Gradle, Maven, Cargo, compilers):
//! which lines are errors and warnings, where they point, and how the build
//! ended; and the report printed for them.

use vstd::prelude::*;
use crate::bridge::{
    groups_view, lower_case, regex_captures, regex_captures_of, regex_compiles, regex_new,
    string_of, to_lowercase, CompiledRegex,
};
use crate::text::{
    chars_of, contains_str, find, lemma_find_from, occurs_at, parse_usize, push_chars, push_decimal,
    push_str, spec_contains, spec_decimal, spec_find, spec_join, spec_parse_usize,
    spec_starts_with, spec_trim, starts_with_str, sub_chars, join, trim, views,
};

verus! {

/// One error or warning found in build output.
#[derive(Debug)]
pub struct BuildIssue {
    pub file: Option<String>,
    pub line: Option<usize>,
    pub col: Option<usize>,
    pub message: String,
    pub raw: String,
}

/// A build issue as a mathematical value.
pub struct IssueView {
    pub file: Option<Seq<char>>,
    pub line: Option<usize>,
    pub col: Option<usize>,
    pub message: Seq<char>,
    pub raw: Seq<char>,
}

/// The view of an optional string.
pub open spec fn opt_view(s: Option<String>) -> Option<Seq<char>> {
    match s {
        Some(t) => Some(t@),
        None => None,
    }
}

impl View for BuildIssue {
    type V = IssueView;

    open spec fn view(&self) -> IssueView {
        IssueView {
            file: opt_view(self.file),
            line: self.line,
            col: self.col,
            message: self.message@,
            raw: self.raw@,
        }
    }
}

/// The views of a list of build issues.
pub open spec fn issue_views(v: Seq<BuildIssue>) -> Seq<IssueView> {
    v.map_values(|i: BuildIssue| i@)
}

// ---------------------------------------------------------------------
// Patterns
// ---------------------------------------------------------------------

/// The patterns of error lines, in the order they are tried: Kotlin
/// (`e: file://path:line:col message`), then `path:line: error: message`
/// with a path free of colons, with any path, and `text: error: message`.
pub open spec fn error_pattern(k: int) -> Seq<char> {
    if k == 0 {
        "^e:\\s+file://([^:]+):(\\d+):(\\d+)\\s+(.*)"@
    } else if k == 1 {
        "^([^:]+):(\\d+):\\s+error:\\s+(.*)"@
    } else if k == 2 {
        "^(.*?):(\\d+):\\s+error:\\s+(.*)"@
    } else {
        "^(.*?):\\s+error:\\s+(.*)"@
    }
}

/// The patterns of warning lines, shaped as those of error lines.
pub open spec fn warning_pattern(k: int) -> Seq<char> {
    if k == 0 {
        "^w:\\s+file://([^:]+):(\\d+):(\\d+)\\s+(.*)"@
    } else if k == 1 {
        "^([^:]+):(\\d+):\\s+warning:\\s+(.*)"@
    } else if k == 2 {
        "^(.*?):(\\d+):\\s+warning:\\s+(.*)"@
    } else {
        "^(.*?):\\s+warning:\\s+(.*)"@
    }
}

fn error_pattern_text(k: usize) -> (res: &'static str)
    requires
        k < 4,
    ensures
        res@ == error_pattern(k as int),
{
    if k == 0 {
        "^e:\\s+file://([^:]+):(\\d+):(\\d+)\\s+(.*)"
    } else if k == 1 {
        "^([^:]+):(\\d+):\\s+error:\\s+(.*)"
    } else if k == 2 {
        "^(.*?):(\\d+):\\s+error:\\s+(.*)"
    } else {
        "^(.*?):\\s+error:\\s+(.*)"
    }
}

fn warning_pattern_text(k: usize) -> (res: &'static str)
    requires
        k < 4,
    ensures
        res@ == warning_pattern(k as int),
{
    if k == 0 {
        "^w:\\s+file://([^:]+):(\\d+):(\\d+)\\s+(.*)"
    } else if k == 1 {
        "^([^:]+):(\\d+):\\s+warning:\\s+(.*)"
    } else if k == 2 {
        "^(.*?):(\\d+):\\s+warning:\\s+(.*)"
    } else {
        "^(.*?):\\s+warning:\\s+(.*)"
    }
}

/// The groups of the first of patterns `k..4` (errors when `errors`, else
/// warnings) that compiles and matches `line`.
pub open spec fn first_match(errors: bool, k: nat, line: Seq<char>) -> Option<Seq<Option<Seq<char>>>>
    decreases 4 - k,
{
    if k >= 4 {
        None
    } else {
        let p = if errors {
            error_pattern(k as int)
        } else {
            warning_pattern(k as int)
        };
        if regex_compiles(p) && regex_captures(p, line) is Some {
            regex_captures(p, line)
        } else {
            first_match(errors, k + 1, line)
        }
    }
}

/// The text of group `i`; a group that took no part in the match reads as
/// empty.
pub open spec fn group_text(groups: Seq<Option<Seq<char>>>, i: int) -> Seq<char> {
    match groups[i] {
        Some(t) => t,
        None => seq![],
    }
}

/// A number as `parse().unwrap_or(0)` reads it.
pub open spec fn number_or_zero(t: Seq<char>) -> usize {
    match spec_parse_usize(t) {
        Some(n) => n,
        None => 0,
    }
}

/// The issue that the groups of a matched pattern describe: with five groups
/// a file, line, column and message; with four a file, line and message;
/// otherwise just the whole line as message.
pub open spec fn issue_of_groups(groups: Seq<Option<Seq<char>>>, line: Seq<char>) -> IssueView {
    if groups.len() == 5 {
        IssueView {
            file: Some(group_text(groups, 1)),
            line: Some(number_or_zero(group_text(groups, 2))),
            col: Some(number_or_zero(group_text(groups, 3))),
            message: group_text(groups, 4),
            raw: line,
        }
    } else if groups.len() == 4 {
        IssueView {
            file: Some(group_text(groups, 1)),
            line: Some(number_or_zero(group_text(groups, 2))),
            col: None,
            message: group_text(groups, 3),
            raw: line,
        }
    } else {
        IssueView { file: None, line: None, col: None, message: line, raw: line }
    }
}

fn group_string(groups: &Vec<Option<String>>, i: usize) -> (res: String)
    requires
        i < groups.len(),
    ensures
        res@ == group_text(groups.deep_view(), i as int),
{
    match &groups[i] {
        Some(t) => t.clone(),
        None => String::new(),
    }
}

fn number_of(t: &String) -> (res: usize)
    ensures
        res == number_or_zero(t@),
{
    let c = chars_of(t.as_str());
    match parse_usize(c.as_slice()) {
        Some(n) => n,
        None => 0,
    }
}

/// Reads an issue off the capture groups that a line's pattern gave.
pub fn interpret_captures(groups: &Vec<Option<String>>, line: &str) -> (res: BuildIssue)
    ensures
        res@ == issue_of_groups(groups.deep_view(), line@),
{
    let n = groups.len();
    if n == 5 {
        let line_text = group_string(groups, 2);
        let col_text = group_string(groups, 3);
        BuildIssue {
            file: Some(group_string(groups, 1)),
            line: Some(number_of(&line_text)),
            col: Some(number_of(&col_text)),
            message: group_string(groups, 4),
            raw: line.to_owned(),
        }
    } else if n == 4 {
        let line_text = group_string(groups, 2);
        BuildIssue {
            file: Some(group_string(groups, 1)),
            line: Some(number_of(&line_text)),
            col: None,
            message: group_string(groups, 3),
            raw: line.to_owned(),
        }
    } else {
        BuildIssue {
            file: None,
            line: None,
            col: None,
            message: line.to_owned(),
            raw: line.to_owned(),
        }
    }
}

/// Pattern `k` of the error patterns (when `errors`) or the warning patterns.
pub open spec fn pattern_of(errors: bool, k: int) -> Seq<char> {
    if errors {
        error_pattern(k)
    } else {
        warning_pattern(k)
    }
}

/// The four patterns of one kind, each compiled when it compiles.
pub open spec fn compiled_as(res: Seq<Option<CompiledRegex>>, errors: bool) -> bool {
    &&& res.len() == 4
    &&& forall|k: int|
        0 <= k < 4 ==> (#[trigger] res[k] is Some <==> regex_compiles(pattern_of(errors, k)))
    &&& forall|k: int|
        0 <= k < 4 ==> (#[trigger] res[k] matches Some(r) ==> r@ == pattern_of(errors, k))
}

fn compile_patterns(errors: bool) -> (res: Vec<Option<CompiledRegex>>)
    ensures
        compiled_as(res@, errors),
{
    let mut res: Vec<Option<CompiledRegex>> = Vec::new();
    let mut k: usize = 0;
    while k < 4
        invariant
            k <= 4,
            res@.len() == k,
            forall|j: int|
                0 <= j < k ==> (#[trigger] res@[j] is Some <==> regex_compiles(pattern_of(errors, j))),
            forall|j: int|
                0 <= j < k ==> (#[trigger] res@[j] matches Some(r) ==> r@ == pattern_of(errors, j)),
        decreases 4 - k,
    {
        let p = if errors {
            error_pattern_text(k)
        } else {
            warning_pattern_text(k)
        };
        res.push(regex_new(p));
        k = k + 1;
    }
    res
}

fn first_match_exec(pats: &Vec<Option<CompiledRegex>>, errors: bool, line: &str) -> (res: Option<
    Vec<Option<String>>,
>)
    requires
        compiled_as(pats@, errors),
    ensures
        groups_view(res) == first_match(errors, 0, line@),
{
    let mut k: usize = 0;
    while k < 4
        invariant
            k <= 4,
            compiled_as(pats@, errors),
            first_match(errors, k as nat, line@) == first_match(errors, 0, line@),
        decreases 4 - k,
    {
        assert(pats@[k as int] is Some <==> regex_compiles(pattern_of(errors, k as int)));
        match &pats[k] {
            Some(re) => {
                let r = regex_captures_of(re, line);
                if r.is_some() {
                    return r;
                }
            },
            None => {},
        }
        k = k + 1;
    }
    None
}


// ---------------------------------------------------------------------
// Scanning
// ---------------------------------------------------------------------

/// Which kind of record a remembered issue is.
#[derive(Clone, Copy, Debug, PartialEq, Eq, Structural)]
pub enum KeyKind {
    /// A "What went wrong" block.
    Config,
    /// An error line matched by a pattern.
    Error,
    /// A line that mentions an error or exception.
    RawError,
    /// A warning line matched by a pattern.
    Warning,
    /// A line that mentions a warning.
    RawWarning,
}

/// What an issue is remembered by, so that it is recorded once.
pub struct SeenKey {
    pub kind: KeyKind,
    pub file: Option<String>,
    pub line: Option<usize>,
    pub col: Option<usize>,
    pub text: String,
}

/// A remembered key as a mathematical value.
pub struct KeyView {
    pub kind: KeyKind,
    pub file: Option<Seq<char>>,
    pub line: Option<usize>,
    pub col: Option<usize>,
    pub text: Seq<char>,
}

impl View for SeenKey {
    type V = KeyView;

    open spec fn view(&self) -> KeyView {
        KeyView {
            kind: self.kind,
            file: opt_view(self.file),
            line: self.line,
            col: self.col,
            text: self.text@,
        }
    }
}

/// The state of the scan over the lines of build output.
pub struct ScanState {
    pub errors: Seq<IssueView>,
    pub warnings: Seq<IssueView>,
    pub task_failure: Option<Seq<char>>,
    pub status: Option<Seq<char>>,
    pub in_wrong: bool,
    pub what: Seq<Seq<char>>,
    pub seen: Seq<KeyView>,
}

/// The state before any line.
pub open spec fn initial_scan() -> ScanState {
    ScanState {
        errors: seq![],
        warnings: seq![],
        task_failure: None,
        status: None,
        in_wrong: false,
        what: seq![],
        seen: seq![],
    }
}

/// An issue with no location, whose message and raw text are both `text`.
pub open spec fn plain_issue(text: Seq<char>) -> IssueView {
    IssueView { file: None, line: None, col: None, message: text, raw: text }
}

/// The key of an issue read off a pattern.
pub open spec fn pattern_key(kind: KeyKind, issue: IssueView) -> KeyView {
    KeyView { kind, file: issue.file, line: issue.line, col: issue.col, text: issue.message }
}

/// The key of an issue known by its text alone.
pub open spec fn text_key(kind: KeyKind, text: Seq<char>) -> KeyView {
    KeyView { kind, file: None, line: None, col: None, text }
}

/// Records `issue` (an error when `error`, else a warning) unless its key was
/// seen before.
pub open spec fn record(st: ScanState, error: bool, key: KeyView, issue: IssueView) -> ScanState {
    if st.seen.contains(key) {
        st
    } else if error {
        ScanState { errors: st.errors.push(issue), seen: st.seen.push(key), ..st }
    } else {
        ScanState { warnings: st.warnings.push(issue), seen: st.seen.push(key), ..st }
    }
}

/// The line begins a build-status line.
pub open spec fn is_status_line(line: Seq<char>) -> bool {
    spec_starts_with(line, "BUILD SUCCESSFUL"@) || spec_starts_with(line, "BUILD FAILED"@)
}

/// What the scan does with a line that no earlier rule took: an error or
/// warning pattern, else a mention of an error, exception or warning in any
/// letter case.
pub open spec fn scan_issue_line(st: ScanState, line: Seq<char>) -> ScanState {
    match first_match(true, 0, line) {
        Some(g) => {
            let issue = issue_of_groups(g, line);
            record(st, true, pattern_key(KeyKind::Error, issue), issue)
        },
        None => match first_match(false, 0, line) {
            Some(g) => {
                let issue = issue_of_groups(g, line);
                record(st, false, pattern_key(KeyKind::Warning, issue), issue)
            },
            None => {
                let lower = lower_case(line);
                if (spec_contains(lower, "error"@) || spec_contains(lower, "exception"@))
                    && !spec_starts_with(line, "FAILURE:"@) && !spec_starts_with(
                    line,
                    "BUILD FAILED"@,
                ) {
                    record(st, true, text_key(KeyKind::RawError, line), plain_issue(line))
                } else if spec_contains(lower, "warning"@) {
                    record(st, false, text_key(KeyKind::RawWarning, line), plain_issue(line))
                } else {
                    st
                }
            },
        },
    }
}

/// One step of the scan, on one line of output (trimmed first).
pub open spec fn scan_line(st: ScanState, raw: Seq<char>) -> ScanState {
    let line = spec_trim(raw);
    if line.len() == 0 {
        st
    } else if is_status_line(line) {
        ScanState { status: Some(line), ..st }
    } else if spec_starts_with(line, "* What went wrong:"@) {
        ScanState { in_wrong: true, what: seq![], ..st }
    } else if st.in_wrong && spec_starts_with(line, "* Try:"@) {
        let st2 = ScanState { in_wrong: false, ..st };
        if st.what.len() > 0 {
            let msg = spec_join(st.what, " "@);
            record(st2, true, text_key(KeyKind::Config, msg), plain_issue(msg))
        } else {
            st2
        }
    } else if st.in_wrong {
        ScanState { what: st.what.push(line), ..st }
    } else if spec_starts_with(line, "FAILURE:"@) && !spec_starts_with(line, "BUILD FAILED"@) {
        st
    } else if spec_contains(line, "Execution failed for task"@) {
        ScanState { task_failure: Some(line), ..st }
    } else {
        scan_issue_line(st, line)
    }
}

/// The scan over all lines, in order.
pub open spec fn scan_lines(st: ScanState, lines: Seq<Seq<char>>) -> ScanState
    decreases lines.len(),
{
    if lines.len() == 0 {
        st
    } else {
        scan_line(scan_lines(st, lines.drop_last()), lines.last())
    }
}

/// The status reported at the end: the last status line seen, else a failure
/// when there are errors or a failed task, else success.
pub open spec fn final_status(st: ScanState) -> Seq<char> {
    match st.status {
        Some(s) => s,
        None => if st.errors.len() > 0 || st.task_failure is Some {
            "BUILD FAILED"@
        } else {
            "BUILD SUCCESSFUL"@
        },
    }
}


/// The running state of the scan.
struct BuildScan {
    errors: Vec<BuildIssue>,
    warnings: Vec<BuildIssue>,
    task_failure: Option<String>,
    status: Option<String>,
    in_wrong: bool,
    what: Vec<Vec<char>>,
    seen: Vec<SeenKey>,
    error_res: Vec<Option<CompiledRegex>>,
    warning_res: Vec<Option<CompiledRegex>>,
}

impl View for BuildScan {
    type V = ScanState;

    closed spec fn view(&self) -> ScanState {
        ScanState {
            errors: issue_views(self.errors@),
            warnings: issue_views(self.warnings@),
            task_failure: opt_view(self.task_failure),
            status: opt_view(self.status),
            in_wrong: self.in_wrong,
            what: views(self.what@),
            seen: self.seen@.map_values(|k: SeenKey| k@),
        }
    }
}

fn clone_opt(s: &Option<String>) -> (res: Option<String>)
    ensures
        opt_view(res) == opt_view(*s),
{
    match s {
        Some(t) => Some(t.clone()),
        None => None,
    }
}

fn same_opt_string(a: &Option<String>, b: &Option<String>) -> (res: bool)
    ensures
        res == (opt_view(*a) == opt_view(*b)),
{
    match a {
        Some(x) => match b {
            Some(y) => x.eq(y),
            None => false,
        },
        None => b.is_none(),
    }
}

fn same_opt_usize(a: Option<usize>, b: Option<usize>) -> (res: bool)
    ensures
        res == (a == b),
{
    match (a, b) {
        (Some(x), Some(y)) => x == y,
        (None, None) => true,
        _ => false,
    }
}

fn same_key(a: &SeenKey, b: &SeenKey) -> (res: bool)
    ensures
        res == (a@ == b@),
{
    a.kind == b.kind && same_opt_string(&a.file, &b.file) && same_opt_usize(a.line, b.line)
        && same_opt_usize(a.col, b.col) && a.text == b.text
}

fn seen_before(seen: &Vec<SeenKey>, key: &SeenKey) -> (res: bool)
    ensures
        res == seen@.map_values(|k: SeenKey| k@).contains(key@),
{
    let ghost sv = seen@.map_values(|k: SeenKey| k@);
    let mut i: usize = 0;
    while i < seen.len()
        invariant
            i <= seen.len(),
            sv == seen@.map_values(|k: SeenKey| k@),
            forall|j: int| 0 <= j < i ==> sv[j] != key@,
        decreases seen.len() - i,
    {
        if same_key(&seen[i], key) {
            assert(sv[i as int] == key@);
            return true;
        }
        i = i + 1;
    }
    false
}

fn issue_key(kind: KeyKind, issue: &BuildIssue) -> (res: SeenKey)
    ensures
        res@ == pattern_key(kind, issue@),
{
    SeenKey {
        kind,
        file: clone_opt(&issue.file),
        line: issue.line,
        col: issue.col,
        text: issue.message.clone(),
    }
}

fn text_issue(text: &String) -> (res: BuildIssue)
    ensures
        res@ == plain_issue(text@),
{
    BuildIssue { file: None, line: None, col: None, message: text.clone(), raw: text.clone() }
}

fn text_seen_key(kind: KeyKind, text: &String) -> (res: SeenKey)
    ensures
        res@ == text_key(kind, text@),
{
    SeenKey { kind, file: None, line: None, col: None, text: text.clone() }
}

impl BuildScan {
    /// The compiled patterns are those of the error and warning lines.
    spec fn ready(&self) -> bool {
        compiled_as(self.error_res@, true) && compiled_as(self.warning_res@, false)
    }

    fn new() -> (res: BuildScan)
        ensures
            res@ == initial_scan(),
            res.ready(),
    {
        let r = BuildScan {
            errors: Vec::new(),
            warnings: Vec::new(),
            task_failure: None,
            status: None,
            in_wrong: false,
            what: Vec::new(),
            seen: Vec::new(),
            error_res: compile_patterns(true),
            warning_res: compile_patterns(false),
        };
        assert(r@.errors =~= initial_scan().errors);
        assert(r@.warnings =~= initial_scan().warnings);
        assert(r@.what =~= initial_scan().what);
        assert(r@.seen =~= initial_scan().seen);
        r
    }

    fn record(&mut self, error: bool, key: SeenKey, issue: BuildIssue)
        requires
            old(self).ready(),
        ensures
            final(self)@ == record(old(self)@, error, key@, issue@),
            final(self).ready(),
    {
        if seen_before(&self.seen, &key) {
            return;
        }
        let ghost st = self@;
        let ghost kv = key@;
        let ghost iv = issue@;
        if error {
            self.errors.push(issue);
            assert(issue_views(self.errors@) =~= st.errors.push(iv));
        } else {
            self.warnings.push(issue);
            assert(issue_views(self.warnings@) =~= st.warnings.push(iv));
        }
        self.seen.push(key);
        assert(self.seen@.map_values(|k: SeenKey| k@) =~= st.seen.push(kv));
        assert(self@ == record(st, error, kv, iv));
    }

    fn scan_issue_line(&mut self, line: &String)
        requires
            old(self).ready(),
        ensures
            final(self)@ == scan_issue_line(old(self)@, line@),
            final(self).ready(),
    {
        match first_match_exec(&self.error_res, true, line.as_str()) {
            Some(g) => {
                let issue = interpret_captures(&g, line.as_str());
                let key = issue_key(KeyKind::Error, &issue);
                self.record(true, key, issue);
            },
            None => match first_match_exec(&self.warning_res, false, line.as_str()) {
                Some(g) => {
                    let issue = interpret_captures(&g, line.as_str());
                    let key = issue_key(KeyKind::Warning, &issue);
                    self.record(false, key, issue);
                },
                None => {
                    let lower = chars_of(to_lowercase(line.as_str()).as_str());
                    let lc = chars_of(line.as_str());
                    if (contains_str(lower.as_slice(), "error") || contains_str(
                        lower.as_slice(),
                        "exception",
                    )) && !starts_with_str(lc.as_slice(), "FAILURE:") && !starts_with_str(
                        lc.as_slice(),
                        "BUILD FAILED",
                    ) {
                        self.record(true, text_seen_key(KeyKind::RawError, line), text_issue(line));
                    } else if contains_str(lower.as_slice(), "warning") {
                        self.record(
                            false,
                            text_seen_key(KeyKind::RawWarning, line),
                            text_issue(line),
                        );
                    }
                },
            },
        }
    }

    fn scan_line(&mut self, raw: &str)
        requires
            old(self).ready(),
        ensures
            final(self)@ == scan_line(old(self)@, raw@),
            final(self).ready(),
    {
        let lc = trim(chars_of(raw).as_slice());
        let l = lc.as_slice();
        let line = string_of(l);
        let ghost st = self@;
        if l.len() == 0 {
            return;
        }
        if starts_with_str(l, "BUILD SUCCESSFUL") || starts_with_str(l, "BUILD FAILED") {
            self.status = Some(line);
            return;
        }
        if starts_with_str(l, "* What went wrong:") {
            self.in_wrong = true;
            self.what = Vec::new();
            assert(self@.what =~= Seq::<Seq<char>>::empty());
            return;
        }
        if self.in_wrong && starts_with_str(l, "* Try:") {
            self.in_wrong = false;
            if self.what.len() > 0 {
                let sep = chars_of(" ");
                let msg = string_of(join(&self.what, sep.as_slice()).as_slice());
                let key = text_seen_key(KeyKind::Config, &msg);
                let issue = text_issue(&msg);
                self.record(true, key, issue);
            }
            return;
        }
        if self.in_wrong {
            let ghost w = self@.what;
            self.what.push(lc);
            assert(self@.what =~= w.push(line@));
            return;
        }
        if starts_with_str(l, "FAILURE:") && !starts_with_str(l, "BUILD FAILED") {
            return;
        }
        if contains_str(l, "Execution failed for task") {
            self.task_failure = Some(line);
            return;
        }
        self.scan_issue_line(&line);
    }
}

/// Reads build output line by line: the errors and warnings found (each
/// recorded once), the last line naming a failed task, and the build status
/// (the last status line, or one inferred from what was found).
pub fn parse_build_output(lines: &[String]) -> (res: (
    Vec<BuildIssue>,
    Vec<BuildIssue>,
    Option<String>,
    Option<String>,
))
    ensures
        ({
            let st = scan_lines(initial_scan(), lines@.map_values(|l: String| l@));
            &&& issue_views(res.0@) == st.errors
            &&& issue_views(res.1@) == st.warnings
            &&& opt_view(res.2) == st.task_failure
            &&& opt_view(res.3) == Some(final_status(st))
        }),
{
    let ghost lv = lines@.map_values(|l: String| l@);
    let mut scan = BuildScan::new();
    let mut i: usize = 0;
    while i < lines.len()
        invariant
            i <= lines.len(),
            lv == lines@.map_values(|l: String| l@),
            scan@ == scan_lines(initial_scan(), lv.take(i as int)),
            scan.ready(),
        decreases lines.len() - i,
    {
        assert(lv.take(i + 1).drop_last() == lv.take(i as int));
        assert(lv.take(i + 1).last() == lines@[i as int]@);
        scan.scan_line(lines[i].as_str());
        i = i + 1;
    }
    assert(lv.take(lines.len() as int) == lv);
    let ghost st = scan@;
    let status = match scan.status {
        Some(s) => s,
        None => if scan.errors.len() > 0 || scan.task_failure.is_some() {
            string_of(chars_of("BUILD FAILED").as_slice())
        } else {
            string_of(chars_of("BUILD SUCCESSFUL").as_slice())
        },
    };
    assert(issue_views(scan.errors@).len() == scan.errors@.len());
    (scan.errors, scan.warnings, scan.task_failure, Some(status))
}


// ---------------------------------------------------------------------
// The report
// ---------------------------------------------------------------------

/// The location line of an issue: `- [line] - <line>` or `- [line] - <line>:<col>`.
pub open spec fn location_line(line: usize, col: Option<usize>) -> Seq<char> {
    "- [line] - "@ + spec_decimal(line as nat) + match col {
        Some(c) => ":"@ + spec_decimal(c as nat),
        None => seq![],
    }
}

/// The report lines for one issue (`error` tells errors from warnings),
/// ending with an empty line. An issue with a file and line shows them; an
/// error without them whose raw text holds `" > "` is split there.
pub open spec fn issue_block(issue: IssueView, error: bool) -> Seq<Seq<char>> {
    let kind = if error {
        "error"@
    } else {
        "warning"@
    };
    let reason = "*reason of the "@ + kind;
    match (issue.file, issue.line) {
        (Some(f), Some(l)) => seq![
            "["@ + kind + "] - "@ + f,
            location_line(l, issue.col),
            reason,
            " > "@ + issue.message,
            seq![],
        ],
        _ => match spec_find(issue.raw, " > "@) {
            Some(k) if error => seq![
                "["@ + kind + "] - "@ + issue.raw.subrange(0, k),
                reason,
                " > "@ + issue.raw.subrange(k + 3, issue.raw.len() as int),
                seq![],
            ],
            _ => seq!["["@ + kind + "] - "@ + issue.raw, reason, " > "@ + issue.message, seq![]],
        },
    }
}

/// The report lines for a list of issues, block after block.
pub open spec fn issue_blocks(issues: Seq<IssueView>, error: bool) -> Seq<Seq<char>>
    decreases issues.len(),
{
    if issues.len() == 0 {
        seq![]
    } else {
        issue_blocks(issues.drop_last(), error) + issue_block(issues.last(), error)
    }
}

/// A line for an optional text.
pub open spec fn optional_line(t: Option<Seq<char>>) -> Seq<Seq<char>> {
    match t {
        Some(s) => seq![s],
        None => seq![],
    }
}

/// The whole report: the error blocks, the warning blocks, the failed task
/// and the status.
pub open spec fn spec_build_report(
    errors: Seq<IssueView>,
    warnings: Seq<IssueView>,
    task_failure: Option<Seq<char>>,
    status: Option<Seq<char>>,
) -> Seq<Seq<char>> {
    issue_blocks(errors, true) + issue_blocks(warnings, false) + optional_line(task_failure)
        + optional_line(status)
}

/// The views of a list of strings.
pub open spec fn string_views(v: Seq<String>) -> Seq<Seq<char>> {
    v.map_values(|s: String| s@)
}

fn push_line(out: &mut Vec<String>, line: &[char])
    ensures
        string_views(final(out)@) == string_views(old(out)@).push(line@),
{
    out.push(string_of(line));
    assert(string_views(out@) =~= string_views(old(out)@).push(line@));
}

fn labelled(label: &str, text: &[char]) -> (res: Vec<char>)
    ensures
        res@ == label@ + text@,
{
    let mut v = chars_of(label);
    push_chars(&mut v, text);
    v
}

fn push_issue_block(out: &mut Vec<String>, issue: &BuildIssue, error: bool)
    ensures
        string_views(final(out)@) == string_views(old(out)@) + issue_block(issue@, error),
{
    let ghost start = string_views(out@);
    let kind = if error {
        "error"
    } else {
        "warning"
    };
    let mut head = chars_of("[");
    push_str(&mut head, kind);
    push_str(&mut head, "] - ");
    let mut reason = chars_of("*reason of the ");
    push_str(&mut reason, kind);
    match (&issue.file, issue.line) {
        (Some(f), Some(l)) => {
            push_chars(&mut head, chars_of(f.as_str()).as_slice());
            push_line(out, head.as_slice());
            let mut loc = chars_of("- [line] - ");
            push_decimal(&mut loc, l);
            match issue.col {
                Some(c) => {
                    push_str(&mut loc, ":");
                    push_decimal(&mut loc, c);
                },
                None => {},
            }
            assert(loc@ =~= location_line(l, issue.col));
            push_line(out, loc.as_slice());
            push_line(out, reason.as_slice());
            let msg = labelled(" > ", chars_of(issue.message.as_str()).as_slice());
            push_line(out, msg.as_slice());
            push_line(out, Vec::<char>::new().as_slice());
            assert(string_views(out@) =~= start + issue_block(issue@, error));
        },
        _ => {
            let raw = chars_of(issue.raw.as_str());
            let sep = chars_of(" > ");
            let at = find(raw.as_slice(), sep.as_slice());
            if error && at.is_some() {
                let k = at.unwrap();
                proof {
                    reveal_strlit(" > ");
                    lemma_find_from(raw@, sep@, 0);
                }
                assert(sep@.len() == 3);
                assert(occurs_at(raw@, sep@, k as int));
                assert(k + 3 <= raw@.len());
                assert(k + 3 <= raw.len());
                push_chars(&mut head, sub_chars(raw.as_slice(), 0, k).as_slice());
                push_line(out, head.as_slice());
                push_line(out, reason.as_slice());
                let rest = labelled(" > ", sub_chars(raw.as_slice(), k + 3, raw.len()).as_slice());
                push_line(out, rest.as_slice());
            } else {
                push_chars(&mut head, raw.as_slice());
                push_line(out, head.as_slice());
                push_line(out, reason.as_slice());
                let msg = labelled(" > ", chars_of(issue.message.as_str()).as_slice());
                push_line(out, msg.as_slice());
            }
            push_line(out, Vec::<char>::new().as_slice());
            assert(string_views(out@) =~= start + issue_block(issue@, error));
        },
    }
}

fn push_issue_blocks(out: &mut Vec<String>, issues: &[BuildIssue], error: bool)
    ensures
        string_views(final(out)@) == string_views(old(out)@) + issue_blocks(
            issue_views(issues@),
            error,
        ),
{
    let ghost iv = issue_views(issues@);
    let mut i: usize = 0;
    while i < issues.len()
        invariant
            i <= issues.len(),
            iv == issue_views(issues@),
            string_views(out@) == string_views(old(out)@) + issue_blocks(iv.take(i as int), error),
        decreases issues.len() - i,
    {
        assert(iv.take(i + 1).drop_last() == iv.take(i as int));
        assert(iv.take(i + 1).last() == issues@[i as int]@);
        push_issue_block(out, &issues[i], error);
        i = i + 1;
    }
    assert(iv.take(issues.len() as int) == iv);
}

/// The lines of the report on parsed build output.
pub fn format_build_output(
    errors: &[BuildIssue],
    warnings: &[BuildIssue],
    task_failure: &Option<String>,
    status: &Option<String>,
) -> (res: Vec<String>)
    ensures
        string_views(res@) == spec_build_report(
            issue_views(errors@),
            issue_views(warnings@),
            opt_view(*task_failure),
            opt_view(*status),
        ),
{
    let mut out: Vec<String> = Vec::new();
    assert(string_views(out@) =~= Seq::<Seq<char>>::empty());
    push_issue_blocks(&mut out, errors, true);
    push_issue_blocks(&mut out, warnings, false);
    let ghost mid = string_views(out@);
    match task_failure {
        Some(t) => push_line(&mut out, chars_of(t.as_str()).as_slice()),
        None => {},
    }
    assert(string_views(out@) =~= mid + optional_line(opt_view(*task_failure)));
    let ghost mid2 = string_views(out@);
    match status {
        Some(t) => push_line(&mut out, chars_of(t.as_str()).as_slice()),
        None => {},
    }
    assert(string_views(out@) =~= mid2 + optional_line(opt_view(*status)));
    out
}

/// How a report line is shown.
#[derive(Clone, Copy, Debug, PartialEq, Eq, Structural)]
pub enum LineStyle {
    /// An error heading, shown in red.
    Error,
    /// A warning heading, shown in yellow.
    Warning,
    /// Anything else, shown as it is.
    Plain,
}

/// The style of a report line: by its `[error]` or `[warning]` prefix.
pub fn line_style(line: &str) -> (res: LineStyle)
    ensures
        res == (if spec_starts_with(line@, "[error]"@) {
            LineStyle::Error
        } else if spec_starts_with(line@, "[warning]"@) {
            LineStyle::Warning
        } else {
            LineStyle::Plain
        }),
{
    let c = chars_of(line);
    if starts_with_str(c.as_slice(), "[error]") {
        LineStyle::Error
    } else if starts_with_str(c.as_slice(), "[warning]") {
        LineStyle::Warning
    } else {
        LineStyle::Plain
    }
}


// ---------------------------------------------------------------------
// Running a build
// ---------------------------------------------------------------------

/// A build tool's command line.
pub struct BuildCommand {
    pub program: String,
    pub args: Vec<String>,
}

/// The command of a build tool (Gradle by default), or the complaint about
/// an unknown tool.
pub open spec fn spec_build_command(tool: Option<Seq<char>>) -> Result<(Seq<char>, Seq<Seq<char>>), Seq<char>> {
    let name = match tool {
        Some(t) => t,
        None => "gradle"@,
    };
    if name == "gradle"@ {
        Ok(("gradle"@, seq!["assembleDebug"@]))
    } else if name == "maven"@ {
        Ok(("mvn"@, seq!["compile"@]))
    } else if name == "cargo"@ {
        Ok(("cargo"@, seq!["build"@]))
    } else {
        Err("Unsupported tool: "@ + name + ". Use gradle, maven, or cargo."@)
    }
}

fn command_of(program: &str, arg: &str) -> (res: BuildCommand)
    ensures
        res.program@ == program@,
        string_views(res.args@) == seq![arg@],
{
    let mut args: Vec<String> = Vec::new();
    args.push(arg.to_owned());
    assert(string_views(args@) =~= seq![arg@]);
    BuildCommand { program: program.to_owned(), args }
}

/// The command for `prep build --run --tool <tool>`.
pub fn build_command(tool: Option<&str>) -> (res: Result<BuildCommand, String>)
    ensures
        match res {
            Ok(c) => spec_build_command(
                match tool {
                    Some(t) => Some(t@),
                    None => None,
                },
            ) == Ok::<(Seq<char>, Seq<Seq<char>>), Seq<char>>((c.program@, string_views(c.args@))),
            Err(m) => spec_build_command(
                match tool {
                    Some(t) => Some(t@),
                    None => None,
                },
            ) == Err::<(Seq<char>, Seq<Seq<char>>), Seq<char>>(m@),
        },
{
    let name = match tool {
        Some(t) => t,
        None => "gradle",
    };
    if crate::text::same_text(name, "gradle") {
        Ok(command_of("gradle", "assembleDebug"))
    } else if crate::text::same_text(name, "maven") {
        Ok(command_of("mvn", "compile"))
    } else if crate::text::same_text(name, "cargo") {
        Ok(command_of("cargo", "build"))
    } else {
        let mut m = chars_of("Unsupported tool: ");
        push_str(&mut m, name);
        push_str(&mut m, ". Use gradle, maven, or cargo.");
        Err(string_of(m.as_slice()))
    }
}

/// Whether parsed build output holds anything to report.
pub fn has_build_output(
    errors: &[BuildIssue],
    warnings: &[BuildIssue],
    task_failure: &Option<String>,
    status: &Option<String>,
) -> (res: bool)
    ensures
        res == !(errors@.len() == 0 && warnings@.len() == 0 && task_failure.is_none()
            && status.is_none()),
{
    !(errors.len() == 0 && warnings.len() == 0 && task_failure.is_none() && status.is_none())
}


// ---------------------------------------------------------------------
// Laws
// ---------------------------------------------------------------------

/// `a` is a prefix of `b`.
pub open spec fn prefix_of(a: Seq<IssueView>, b: Seq<IssueView>) -> bool {
    a.len() <= b.len() && b.subrange(0, a.len() as int) == a
}

/// The remembered keys are pairwise different, and there is one per recorded
/// error or warning.
pub open spec fn scan_wf(st: ScanState) -> bool {
    &&& forall|i: int, j: int| 0 <= i < j < st.seen.len() ==> st.seen[i] != st.seen[j]
    &&& st.errors.len() + st.warnings.len() == st.seen.len()
}

/// A step only adds issues at the end of the lists.
pub open spec fn grows(a: ScanState, b: ScanState) -> bool {
    prefix_of(a.errors, b.errors) && prefix_of(a.warnings, b.warnings)
}

proof fn lemma_record(st: ScanState, error: bool, key: KeyView, issue: IssueView)
    requires
        scan_wf(st),
    ensures
        scan_wf(record(st, error, key, issue)),
        grows(st, record(st, error, key, issue)),
{
    let r = record(st, error, key, issue);
    assert(r.errors.subrange(0, st.errors.len() as int) == st.errors);
    assert(r.warnings.subrange(0, st.warnings.len() as int) == st.warnings);
    if !st.seen.contains(key) {
        assert forall|i: int, j: int| 0 <= i < j < r.seen.len() implies r.seen[i] != r.seen[j] by {
            if j == st.seen.len() {
                assert(r.seen[i] == st.seen[i]);
                assert(st.seen.contains(st.seen[i]));
            }
        }
    }
}

proof fn lemma_scan_line(st: ScanState, raw: Seq<char>)
    requires
        scan_wf(st),
    ensures
        scan_wf(scan_line(st, raw)),
        grows(st, scan_line(st, raw)),
{
    let line = spec_trim(raw);
    let r = scan_line(st, raw);
    assert(st.errors.subrange(0, st.errors.len() as int) == st.errors);
    assert(st.warnings.subrange(0, st.warnings.len() as int) == st.warnings);
    if line.len() == 0 || is_status_line(line) || spec_starts_with(line, "* What went wrong:"@) {
    } else if st.in_wrong && spec_starts_with(line, "* Try:"@) {
        let st2 = ScanState { in_wrong: false, ..st };
        if st.what.len() > 0 {
            let msg = spec_join(st.what, " "@);
            lemma_record(st2, true, text_key(KeyKind::Config, msg), plain_issue(msg));
        }
    } else if st.in_wrong {
    } else if spec_starts_with(line, "FAILURE:"@) && !spec_starts_with(line, "BUILD FAILED"@) {
    } else if spec_contains(line, "Execution failed for task"@) {
    } else {
        match first_match(true, 0, line) {
            Some(g) => {
                let issue = issue_of_groups(g, line);
                lemma_record(st, true, pattern_key(KeyKind::Error, issue), issue);
            },
            None => match first_match(false, 0, line) {
                Some(g) => {
                    let issue = issue_of_groups(g, line);
                    lemma_record(st, false, pattern_key(KeyKind::Warning, issue), issue);
                },
                None => {
                    lemma_record(st, true, text_key(KeyKind::RawError, line), plain_issue(line));
                    lemma_record(st, false, text_key(KeyKind::RawWarning, line), plain_issue(line));
                },
            },
        }
    }
}

proof fn lemma_prefix_trans(a: Seq<IssueView>, b: Seq<IssueView>, c: Seq<IssueView>)
    requires
        prefix_of(a, b),
        prefix_of(b, c),
    ensures
        prefix_of(a, c),
{
    assert(c.subrange(0, a.len() as int) == c.subrange(0, b.len() as int).subrange(0, a.len() as int));
}

/// Reading build output records each issue once: the keys it remembers
/// differ pairwise, one per recorded error or warning.
pub proof fn lemma_scan_records_once(lines: Seq<Seq<char>>)
    ensures
        scan_wf(scan_lines(initial_scan(), lines)),
    decreases lines.len(),
{
    if lines.len() > 0 {
        lemma_scan_records_once(lines.drop_last());
        lemma_scan_line(scan_lines(initial_scan(), lines.drop_last()), lines.last());
    }
}

/// Reading more output never takes back an issue: the errors and warnings
/// found in the first lines come first, in the same order, among those found
/// in all of them.
pub proof fn lemma_scan_prefix(lines: Seq<Seq<char>>, k: int)
    requires
        0 <= k <= lines.len(),
    ensures
        grows(scan_lines(initial_scan(), lines.take(k)), scan_lines(initial_scan(), lines)),
    decreases lines.len(),
{
    let a = scan_lines(initial_scan(), lines.take(k));
    if k == lines.len() {
        assert(lines.take(k) == lines);
        assert(a.errors.subrange(0, a.errors.len() as int) == a.errors);
        assert(a.warnings.subrange(0, a.warnings.len() as int) == a.warnings);
    } else {
        lemma_scan_prefix(lines.drop_last(), k);
        assert(lines.drop_last().take(k) == lines.take(k));
        lemma_scan_records_once(lines.drop_last());
        let m = scan_lines(initial_scan(), lines.drop_last());
        lemma_scan_line(m, lines.last());
        let z = scan_lines(initial_scan(), lines);
        lemma_prefix_trans(a.errors, m.errors, z.errors);
        lemma_prefix_trans(a.warnings, m.warnings, z.warnings);
    }
}

/// The status of the last status line seen (trimmed), if any.
pub open spec fn last_status(lines: Seq<Seq<char>>) -> Option<Seq<char>>
    decreases lines.len(),
{
    if lines.len() == 0 {
        None
    } else if spec_trim(lines.last()).len() > 0 && is_status_line(spec_trim(lines.last())) {
        Some(spec_trim(lines.last()))
    } else {
        last_status(lines.drop_last())
    }
}

/// The build status is the last status line of the output; without one, a
/// failure exactly when errors or a failed task were found.
pub proof fn lemma_status(lines: Seq<Seq<char>>)
    ensures
        scan_lines(initial_scan(), lines).status == last_status(lines),
        final_status(scan_lines(initial_scan(), lines)) == match last_status(lines) {
            Some(s) => s,
            None => if scan_lines(initial_scan(), lines).errors.len() > 0 || scan_lines(
                initial_scan(),
                lines,
            ).task_failure is Some {
                "BUILD FAILED"@
            } else {
                "BUILD SUCCESSFUL"@
            },
        },
    decreases lines.len(),
{
    if lines.len() > 0 {
        lemma_status(lines.drop_last());
    }
}

/// The lines that matter to the scan: each line trimmed, blank ones left
/// out, in order.
pub open spec fn meaningful(lines: Seq<Seq<char>>) -> Seq<Seq<char>>
    decreases lines.len(),
{
    if lines.len() == 0 {
        seq![]
    } else {
        meaningful(lines.drop_last()) + if spec_trim(lines.last()).len() > 0 {
            seq![spec_trim(lines.last())]
        } else {
            seq![]
        }
    }
}

proof fn lemma_scan_meaningful(st: ScanState, lines: Seq<Seq<char>>)
    ensures
        scan_lines(st, lines) == scan_lines(st, meaningful(lines)),
    decreases lines.len(),
{
    if lines.len() > 0 {
        lemma_scan_meaningful(st, lines.drop_last());
        let m = meaningful(lines.drop_last());
        let t = spec_trim(lines.last());
        if t.len() > 0 {
            let mt = m.push(t);
            assert(meaningful(lines) == mt);
            assert(mt.drop_last() =~= m);
            crate::text::lemma_trim_twice(lines.last());
            assert(scan_line(scan_lines(st, m), t) == scan_line(scan_lines(st, m), lines.last()));
        } else {
            assert(meaningful(lines) =~= m);
        }
    }
}

/// Blank lines and the whitespace around a line do not change what is read
/// from build output: two outputs with the same trimmed, non-blank lines
/// give the same errors, warnings, failed task and status.
pub proof fn lemma_scan_ignores_blank_and_padding(a: Seq<Seq<char>>, b: Seq<Seq<char>>)
    requires
        meaningful(a) == meaningful(b),
    ensures
        scan_lines(initial_scan(), a) == scan_lines(initial_scan(), b),
{
    lemma_scan_meaningful(initial_scan(), a);
    lemma_scan_meaningful(initial_scan(), b);
}

/// The number of report lines for an issue: five with a file and a line,
/// four otherwise.
pub open spec fn block_len(issue: IssueView) -> nat {
    if issue.file is Some && issue.line is Some {
        5
    } else {
        4
    }
}

/// The number of report lines for a list of issues.
pub open spec fn blocks_len(issues: Seq<IssueView>) -> nat
    decreases issues.len(),
{
    if issues.len() == 0 {
        0
    } else {
        blocks_len(issues.drop_last()) + block_len(issues.last())
    }
}

proof fn lemma_issue_blocks_len(issues: Seq<IssueView>, error: bool)
    ensures
        issue_blocks(issues, error).len() == blocks_len(issues),
    decreases issues.len(),
{
    if issues.len() > 0 {
        lemma_issue_blocks_len(issues.drop_last(), error);
        let i = issues.last();
        match (i.file, i.line) {
            (Some(_), Some(_)) => {},
            _ => {},
        }
    }
}

proof fn lemma_issue_blocks_prefix(issues: Seq<IssueView>, error: bool, k: int)
    requires
        0 <= k <= issues.len(),
    ensures
        blocks_len(issues.take(k)) <= blocks_len(issues),
        issue_blocks(issues, error).subrange(0, blocks_len(issues.take(k)) as int) == issue_blocks(
            issues.take(k),
            error,
        ),
    decreases issues.len(),
{
    lemma_issue_blocks_len(issues, error);
    lemma_issue_blocks_len(issues.take(k), error);
    if k == issues.len() {
        assert(issues.take(k) == issues);
        assert(issue_blocks(issues, error).subrange(0, blocks_len(issues) as int) =~= issue_blocks(
            issues,
            error,
        ));
    } else {
        let d = issues.drop_last();
        lemma_issue_blocks_prefix(d, error, k);
        assert(d.take(k) == issues.take(k));
        lemma_issue_blocks_len(d, error);
        assert(issue_blocks(issues, error) == issue_blocks(d, error) + issue_block(issues.last(), error));
        assert(issue_blocks(issues, error).subrange(0, blocks_len(issues.take(k)) as int)
            =~= issue_blocks(d, error).subrange(0, blocks_len(d.take(k)) as int));
    }
}

proof fn lemma_issue_block_at(issues: Seq<IssueView>, error: bool, j: int)
    requires
        0 <= j < issues.len(),
    ensures
        blocks_len(issues.take(j)) + block_len(issues[j]) == blocks_len(issues.take(j + 1)),
        blocks_len(issues.take(j + 1)) <= blocks_len(issues),
        issue_blocks(issues, error).subrange(
            blocks_len(issues.take(j)) as int,
            blocks_len(issues.take(j + 1)) as int,
        ) == issue_block(issues[j], error),
{
    let t = issues.take(j + 1);
    assert(t.drop_last() == issues.take(j));
    assert(t.last() == issues[j]);
    lemma_issue_blocks_prefix(issues, error, j + 1);
    lemma_issue_blocks_len(issues.take(j), error);
    lemma_issue_blocks_len(t, error);
    lemma_issue_blocks_len(issues, error);
    assert(blocks_len(t) == blocks_len(t.drop_last()) + block_len(t.last()));
    let whole = issue_blocks(issues, error);
    let lo = blocks_len(issues.take(j)) as int;
    let hi = blocks_len(t) as int;
    assert(issue_blocks(t, error) == issue_blocks(issues.take(j), error) + issue_block(issues[j], error));
    assert(whole.subrange(0, hi) == issue_blocks(t, error));
    assert(whole.subrange(lo, hi) =~= whole.subrange(0, hi).subrange(lo, hi));
    assert(issue_blocks(t, error).subrange(lo, hi) =~= issue_block(issues[j], error));
}

/// The report has a fixed number of lines per issue, in order: five for an
/// issue with a file and a line, four for any other; the error blocks come
/// first, each issue's block where the blocks before it end, then the
/// warning blocks likewise, then the failed task and the status, each one
/// line when present.
pub proof fn lemma_report_layout(
    errors: Seq<IssueView>,
    warnings: Seq<IssueView>,
    task_failure: Option<Seq<char>>,
    status: Option<Seq<char>>,
)
    ensures
        spec_build_report(errors, warnings, task_failure, status).len() == blocks_len(errors)
            + blocks_len(warnings) + (if task_failure is Some {
            1int
        } else {
            0int
        }) + (if status is Some {
            1int
        } else {
            0int
        }),
        forall|j: int|
            0 <= j < errors.len() ==> spec_build_report(errors, warnings, task_failure, status).subrange(
                blocks_len(errors.take(j)) as int,
                blocks_len(errors.take(j + 1)) as int,
            ) == issue_block(#[trigger] errors[j], true),
        forall|j: int|
            0 <= j < warnings.len() ==> spec_build_report(errors, warnings, task_failure, status).subrange(
                (blocks_len(errors) + blocks_len(warnings.take(j))) as int,
                (blocks_len(errors) + blocks_len(warnings.take(j + 1))) as int,
            ) == issue_block(#[trigger] warnings[j], false),
{
    let e = issue_blocks(errors, true);
    let w = issue_blocks(warnings, false);
    let r = spec_build_report(errors, warnings, task_failure, status);
    lemma_issue_blocks_len(errors, true);
    lemma_issue_blocks_len(warnings, false);
    let tail = optional_line(task_failure) + optional_line(status);
    assert(r =~= e + w + tail);
    assert forall|j: int| 0 <= j < errors.len() implies r.subrange(
        blocks_len(errors.take(j)) as int,
        blocks_len(errors.take(j + 1)) as int,
    ) == issue_block(#[trigger] errors[j], true) by {
        lemma_issue_block_at(errors, true, j);
        assert(r.subrange(blocks_len(errors.take(j)) as int, blocks_len(errors.take(j + 1)) as int)
            =~= e.subrange(blocks_len(errors.take(j)) as int, blocks_len(errors.take(j + 1)) as int));
    }
    assert forall|j: int| 0 <= j < warnings.len() implies r.subrange(
        (blocks_len(errors) + blocks_len(warnings.take(j))) as int,
        (blocks_len(errors) + blocks_len(warnings.take(j + 1))) as int,
    ) == issue_block(#[trigger] warnings[j], false) by {
        lemma_issue_block_at(warnings, false, j);
        let lo = blocks_len(warnings.take(j)) as int;
        let hi = blocks_len(warnings.take(j + 1)) as int;
        assert(r.subrange(blocks_len(errors) + lo, blocks_len(errors) + hi) =~= w.subrange(lo, hi));
    }
}

/// No line opens a "What went wrong" block.
pub open spec fn no_wrong_block(lines: Seq<Seq<char>>) -> bool {
    forall|j: int|
        0 <= j < lines.len() ==> !spec_starts_with(spec_trim(#[trigger] lines[j]), "* What went wrong:"@)
}

proof fn lemma_never_wrong(lines: Seq<Seq<char>>)
    requires
        no_wrong_block(lines),
    ensures
        !scan_lines(initial_scan(), lines).in_wrong,
    decreases lines.len(),
{
    if lines.len() > 0 {
        let d = lines.drop_last();
        assert(no_wrong_block(d)) by {
            assert forall|j: int| 0 <= j < d.len() implies !spec_starts_with(
                spec_trim(#[trigger] d[j]),
                "* What went wrong:"@,
            ) by {
                assert(d[j] == lines[j]);
            }
        }
        lemma_never_wrong(d);
        assert(!spec_starts_with(spec_trim(lines[lines.len() - 1]), "* What went wrong:"@));
    }
}

proof fn lemma_seen_step(st: ScanState, raw: Seq<char>)
    ensures
        forall|k: KeyView| st.seen.contains(k) ==> #[trigger] scan_line(st, raw).seen.contains(k),
{
    let line = spec_trim(raw);
    assert forall|k: KeyView| st.seen.contains(k) implies #[trigger] scan_line(st, raw).seen.contains(k) by {
        let j = choose|j: int| 0 <= j < st.seen.len() && st.seen[j] == k;
        assert(st.seen.push(k)[j] == k);
        assert forall|e: bool, key: KeyView, issue: IssueView|
            #[trigger] record(st, e, key, issue).seen.contains(k) by {
            if !st.seen.contains(key) {
                assert(record(st, e, key, issue).seen[j] == k);
            }
        }
        if st.in_wrong && spec_starts_with(line, "* Try:"@) && st.what.len() > 0 {
            let st2 = ScanState { in_wrong: false, ..st };
            let msg = spec_join(st.what, " "@);
            let key = text_key(KeyKind::Config, msg);
            if !st2.seen.contains(key) {
                assert(record(st2, true, key, plain_issue(msg)).seen[j] == k);
            }
        }
    }
}

proof fn lemma_seen_grows(st: ScanState, lines: Seq<Seq<char>>)
    ensures
        forall|k: KeyView| st.seen.contains(k) ==> #[trigger] scan_lines(st, lines).seen.contains(k),
    decreases lines.len(),
{
    if lines.len() > 0 {
        lemma_seen_grows(st, lines.drop_last());
        lemma_seen_step(scan_lines(st, lines.drop_last()), lines.last());
    }
}

proof fn lemma_scan_append(st: ScanState, a: Seq<Seq<char>>, b: Seq<Seq<char>>)
    ensures
        scan_lines(st, a + b) == scan_lines(scan_lines(st, a), b),
    decreases b.len(),
{
    if b.len() == 0 {
        assert(a + b =~= a);
    } else {
        lemma_scan_append(st, a, b.drop_last());
        assert((a + b).drop_last() =~= a + b.drop_last());
        assert((a + b).last() == b.last());
    }
}

proof fn lemma_issue_line_repeat(st1: ScanState, st2: ScanState, line: Seq<char>)
    requires
        forall|k: KeyView| scan_issue_line(st1, line).seen.contains(k) ==> #[trigger] st2.seen.contains(k),
    ensures
        scan_issue_line(st2, line) == st2,
{
    assert forall|e: bool, key: KeyView, issue: IssueView|
        scan_issue_line(st1, line) == #[trigger] record(st1, e, key, issue) implies st2.seen.contains(
        key,
    ) by {
        if st1.seen.contains(key) {
            assert(record(st1, e, key, issue).seen.contains(key));
        } else {
            assert(record(st1, e, key, issue).seen.last() == key);
            assert(record(st1, e, key, issue).seen.contains(record(st1, e, key, issue).seen.last()));
        }
    }
}

/// A line that comes again adds nothing: in output with no "What went wrong"
/// block, appending again the trimmed text of one of its lines (one that is
/// no status line and names no failed task) leaves what is read unchanged.
pub proof fn lemma_repeated_line_adds_nothing(lines: Seq<Seq<char>>, i: int)
    requires
        0 <= i < lines.len(),
        no_wrong_block(lines),
        !is_status_line(spec_trim(lines[i])),
        !spec_contains(spec_trim(lines[i]), "Execution failed for task"@),
    ensures
        scan_lines(initial_scan(), lines.push(spec_trim(lines[i]))) == scan_lines(initial_scan(), lines),
{
    let s = spec_trim(lines[i]);
    let x = scan_lines(initial_scan(), lines);
    assert(lines.push(s).drop_last() =~= lines);
    assert(scan_lines(initial_scan(), lines.push(s)) == scan_line(x, s));
    crate::text::lemma_trim_twice(lines[i]);
    assert(spec_trim(s) == s);
    lemma_never_wrong(lines);
    let pre = lines.take(i);
    assert(no_wrong_block(pre)) by {
        assert forall|j: int| 0 <= j < pre.len() implies !spec_starts_with(
            spec_trim(#[trigger] pre[j]),
            "* What went wrong:"@,
        ) by {
            assert(pre[j] == lines[j]);
        }
    }
    lemma_never_wrong(pre);
    let y = scan_lines(initial_scan(), pre);
    let y1 = scan_line(y, lines[i]);
    assert(lines.take(i + 1).drop_last() =~= pre);
    assert(scan_lines(initial_scan(), lines.take(i + 1)) == y1);
    lemma_scan_append(initial_scan(), lines.take(i + 1), lines.skip(i + 1));
    assert(lines.take(i + 1) + lines.skip(i + 1) =~= lines);
    lemma_seen_grows(y1, lines.skip(i + 1));
    assert(!spec_starts_with(s, "* What went wrong:"@));
    if s.len() == 0 {
    } else if spec_starts_with(s, "FAILURE:"@) && !spec_starts_with(s, "BUILD FAILED"@) {
    } else {
        assert(y1 == scan_issue_line(y, s));
        assert(scan_line(x, s) == scan_issue_line(x, s));
        lemma_issue_line_repeat(y, x, s);
    }
}

/// A trimmed line that the scan reads as a possible issue: not blank, no
/// status line, no "What went wrong" or `FAILURE:` line, and naming no
/// failed task.
pub open spec fn ordinary_line(t: Seq<char>) -> bool {
    &&& t.len() > 0
    &&& !is_status_line(t)
    &&& !spec_starts_with(t, "* What went wrong:"@)
    &&& !spec_starts_with(t, "FAILURE:"@)
    &&& !spec_contains(t, "Execution failed for task"@)
}

/// Two error lines are both recorded, in order, when their issues differ in
/// file, line, column or message: only a repeat of all four is dropped.
pub proof fn lemma_distinct_errors_both_recorded(x: Seq<char>, y: Seq<char>)
    requires
        ordinary_line(spec_trim(x)),
        ordinary_line(spec_trim(y)),
        first_match(true, 0, spec_trim(x)) is Some,
        first_match(true, 0, spec_trim(y)) is Some,
        ({
            let ix = issue_of_groups(first_match(true, 0, spec_trim(x))->0, spec_trim(x));
            let iy = issue_of_groups(first_match(true, 0, spec_trim(y))->0, spec_trim(y));
            ix.file != iy.file || ix.line != iy.line || ix.col != iy.col || ix.message != iy.message
        }),
    ensures
        scan_lines(initial_scan(), seq![x, y]).errors == seq![
            issue_of_groups(first_match(true, 0, spec_trim(x))->0, spec_trim(x)),
            issue_of_groups(first_match(true, 0, spec_trim(y))->0, spec_trim(y)),
        ],
{
    let tx = spec_trim(x);
    let ty = spec_trim(y);
    let ix = issue_of_groups(first_match(true, 0, tx)->0, tx);
    let iy = issue_of_groups(first_match(true, 0, ty)->0, ty);
    assert(seq![x, y].drop_last() =~= seq![x]);
    assert(seq![x].drop_last() =~= Seq::<Seq<char>>::empty());
    let s0 = initial_scan();
    let s1 = scan_line(s0, x);
    assert(scan_lines(s0, Seq::<Seq<char>>::empty()) == s0);
    assert(seq![x].last() == x);
    assert(seq![x, y].last() == y);
    assert(scan_lines(s0, seq![x]) == scan_line(scan_lines(s0, seq![x].drop_last()), x));
    assert(scan_lines(s0, seq![x]) == s1);
    assert(scan_lines(s0, seq![x, y]) == scan_line(scan_lines(s0, seq![x]), y));
    assert(s1 == scan_issue_line(s0, tx));
    assert(s1 == record(s0, true, pattern_key(KeyKind::Error, ix), ix));
    assert(!s0.seen.contains(pattern_key(KeyKind::Error, ix)));
    assert(s1.errors =~= seq![ix]);
    assert(s1.seen =~= seq![pattern_key(KeyKind::Error, ix)]);
    assert(!s1.in_wrong);
    let s2 = scan_line(s1, y);
    assert(s2 == scan_issue_line(s1, ty));
    assert(s2 == record(s1, true, pattern_key(KeyKind::Error, iy), iy));
    assert(pattern_key(KeyKind::Error, iy) != pattern_key(KeyKind::Error, ix));
    assert(!s1.seen.contains(pattern_key(KeyKind::Error, iy))) by {
        if s1.seen.contains(pattern_key(KeyKind::Error, iy)) {
            assert(s1.seen[0] == pattern_key(KeyKind::Error, iy));
        }
    }
    assert(s2.errors =~= seq![ix, iy]);
}

} // verus!

//! The per-file checks (secrets, merge markers, whitespace, line endings,
//! BOM) and the formatting fixes.

use vstd::prelude::*;
use crate::bridge::{regex_captures, regex_compiles, regex_is_match, regex_new, string_of};
use crate::text::{
    chars_of, contains_char, ends_with, lemma_lines_of_join_keep, lemma_pieces, pieces, piece_line, push_chars,
    push_decimal, push_str, spec_decimal, spec_ends_with, spec_join, spec_lines, spec_pieces,
    spec_starts_with, spec_trim_end, split_lines, starts_with_str, strip_cr, sub_chars, trim_end,
    join, views,
};

verus! {

/// How serious a finding is.
#[derive(Clone, Copy, Debug, PartialEq, Eq, Structural)]
pub enum Severity {
    Error,
    Warning,
    Info,
}

/// One finding of a check.
#[derive(Clone, Debug)]
pub struct CheckResult {
    pub severity: Severity,
    pub message: String,
}

/// A finding as a mathematical value: its severity and its message.
pub type Finding = (Severity, Seq<char>);

impl View for CheckResult {
    type V = Finding;

    open spec fn view(&self) -> Finding {
        (self.severity, self.message@)
    }
}

/// The findings of a list of check results.
pub open spec fn findings(results: Seq<CheckResult>) -> Seq<Finding> {
    results.map_values(|r: CheckResult| r@)
}

/// Builds a check result from a severity and message characters.
pub fn check_result(severity: Severity, message: &[char]) -> (res: CheckResult)
    ensures
        res@ == (severity, message@),
{
    CheckResult { severity, message: string_of(message) }
}

fn push_result(results: &mut Vec<CheckResult>, severity: Severity, message: &[char])
    ensures
        findings(final(results)@) == findings(old(results)@).push((severity, message@)),
{
    let r = check_result(severity, message);
    results.push(r);
    assert(findings(results@) =~= findings(old(results)@).push((severity, message@)));
}

/// `"Line <n>"` followed by `tail`, the shape of every per-line message.
pub open spec fn line_message(n: nat, tail: Seq<char>) -> Seq<char> {
    "Line "@ + spec_decimal(n) + tail
}

fn make_line_message(n: usize, tail: &str) -> (res: Vec<char>)
    ensures
        res@ == line_message(n as nat, tail@),
{
    let mut m = chars_of("Line ");
    push_decimal(&mut m, n);
    push_str(&mut m, tail);
    m
}

/// The findings that `f` gives for each of the first `count` lines, the line
/// numbered from 1, in line order.
pub open spec fn per_line(
    lines: Seq<Seq<char>>,
    count: nat,
    f: spec_fn(Seq<char>, nat) -> Seq<Finding>,
) -> Seq<Finding>
    decreases count,
{
    if count == 0 {
        seq![]
    } else {
        per_line(lines, (count - 1) as nat, f) + f(lines[count - 1], count)
    }
}

// ---------------------------------------------------------------------
// Secrets
// ---------------------------------------------------------------------

/// The regular expressions of the secret kinds, in the order they are tried.
pub open spec fn secret_pattern(k: int) -> Seq<char> {
    if k == 0 {
        "AKIA[0-9A-Z]{16}"@
    } else if k == 1 {
        "-----BEGIN (RSA|DSA|EC) PRIVATE KEY-----"@
    } else {
        "eyJ[A-Za-z0-9_-]{10,}\\.[A-Za-z0-9_-]{10,}\\.[A-Za-z0-9_-]{10,}"@
    }
}

/// The names of the secret kinds.
pub open spec fn secret_name(k: int) -> Seq<char> {
    if k == 0 {
        "AWS Access Key"@
    } else if k == 1 {
        "Private Key"@
    } else {
        "JWT Token"@
    }
}

fn secret_pattern_text(k: usize) -> (res: &'static str)
    requires
        k < 3,
    ensures
        res@ == secret_pattern(k as int),
{
    if k == 0 {
        "AKIA[0-9A-Z]{16}"
    } else if k == 1 {
        "-----BEGIN (RSA|DSA|EC) PRIVATE KEY-----"
    } else {
        "eyJ[A-Za-z0-9_-]{10,}\\.[A-Za-z0-9_-]{10,}\\.[A-Za-z0-9_-]{10,}"
    }
}

fn secret_name_text(k: usize) -> (res: &'static str)
    requires
        k < 3,
    ensures
        res@ == secret_name(k as int),
{
    if k == 0 {
        "AWS Access Key"
    } else if k == 1 {
        "Private Key"
    } else {
        "JWT Token"
    }
}

/// Secret kind `k` is found in `line`: its pattern compiles and matches.
pub open spec fn secret_found(k: int, line: Seq<char>) -> bool {
    regex_compiles(secret_pattern(k)) && regex_captures(secret_pattern(k), line) is Some
}

/// The secret findings of line `n` for the first `k` secret kinds.
pub open spec fn line_secrets(line: Seq<char>, n: nat, k: nat) -> Seq<Finding>
    decreases k,
{
    if k == 0 {
        seq![]
    } else {
        line_secrets(line, n, (k - 1) as nat) + if secret_found(k - 1, line) {
            seq![
                (
                    Severity::Error,
                    line_message(n, ": Possible "@ + secret_name(k - 1) + " found"@),
                ),
            ]
        } else {
            seq![]
        }
    }
}

/// Per line: each secret kind whose pattern matches somewhere in it.
pub open spec fn secret_findings(line: Seq<char>, n: nat) -> Seq<Finding> {
    line_secrets(line, n, 3)
}

// ---------------------------------------------------------------------
// Merge markers, trailing whitespace, carriage returns
// ---------------------------------------------------------------------

/// A line that begins like a merge-conflict marker.
pub open spec fn is_conflict_marker(line: Seq<char>) -> bool {
    spec_starts_with(line, "<<<<<<< HEAD"@) || spec_starts_with(line, ">>>>>>>"@)
        || spec_starts_with(line, "======="@)
}

/// Per line: an error for a merge-conflict marker.
pub open spec fn marker_findings(line: Seq<char>, n: nat) -> Seq<Finding> {
    if is_conflict_marker(line) {
        seq![(Severity::Error, line_message(n, ": Unresolved merge conflict marker"@))]
    } else {
        seq![]
    }
}

/// A line that ends with a space or a tab.
pub open spec fn ends_in_blank(line: Seq<char>) -> bool {
    line.len() > 0 && (line.last() == ' ' || line.last() == '\t')
}

/// Per line: a warning for a space or tab at the end.
pub open spec fn blank_findings(line: Seq<char>, n: nat) -> Seq<Finding> {
    if ends_in_blank(line) {
        seq![(Severity::Warning, line_message(n, ": Trailing whitespace"@))]
    } else {
        seq![]
    }
}

/// Piece `k` of a text cut at line feeds ends in a CRLF line end: a line
/// feed follows it and it ends with a carriage return.
pub open spec fn crlf_at(pieces: Seq<Seq<char>>, k: int) -> bool {
    0 <= k < pieces.len() - 1 && pieces[k].len() > 0 && pieces[k].last() == '\r'
}

/// The secret findings of the first `count` lines.
pub open spec fn secrets_section(lines: Seq<Seq<char>>, count: nat) -> Seq<Finding> {
    per_line(lines, count, |l: Seq<char>, i: nat| secret_findings(l, i))
}

/// The merge-marker findings of the first `count` lines.
pub open spec fn markers_section(lines: Seq<Seq<char>>, count: nat) -> Seq<Finding> {
    per_line(lines, count, |l: Seq<char>, i: nat| marker_findings(l, i))
}

/// The trailing-whitespace findings of the first `count` lines.
pub open spec fn blanks_section(lines: Seq<Seq<char>>, count: nat) -> Seq<Finding> {
    per_line(lines, count, |l: Seq<char>, i: nat| blank_findings(l, i))
}

/// The carriage-return findings of the first `count` pieces of a text cut
/// at line feeds, piece `k` being line `k + 1`: a line is noted when its
/// raw text holds a carriage return, whether that ends it before the line
/// feed (a CRLF end), stands inside it, or ends the text.
pub open spec fn crs_section(pieces: Seq<Seq<char>>, count: nat) -> Seq<Finding>
    decreases count,
{
    if count == 0 {
        seq![]
    } else {
        crs_section(pieces, (count - 1) as nat) + if pieces[count - 1].contains('\r') {
            seq![(Severity::Info, line_message(count, ": CRLF line ending (should be LF)"@))]
        } else {
            seq![]
        }
    }
}

/// The warning for a text with lines that does not end with a newline.
pub open spec fn eof_section(content: Seq<char>) -> Seq<Finding> {
    if spec_lines(content).len() > 0 && !spec_ends_with(content, "\n"@) {
        seq![(Severity::Warning, "No newline at end of file"@)]
    } else {
        seq![]
    }
}

/// The note for a text that begins with a byte order mark.
pub open spec fn bom_section(content: Seq<char>) -> Seq<Finding> {
    if spec_starts_with(content, "\u{feff}"@) {
        seq![(Severity::Info, "File contains UTF-8 BOM (should be removed)"@)]
    } else {
        seq![]
    }
}

/// The findings for the text of a file, section after section: secrets,
/// merge markers, trailing whitespace, a missing final newline, CRLF line
/// ends, and a byte order mark.
pub open spec fn spec_content_checks(content: Seq<char>) -> Seq<Finding> {
    let lines = spec_lines(content);
    let n = lines.len();
    secrets_section(lines, n) + markers_section(lines, n) + blanks_section(lines, n) + eof_section(
        content,
    ) + crs_section(spec_pieces(content), spec_pieces(content).len()) + bom_section(content)
}

/// The findings for a file: none for a binary file, one error for a file
/// that could not be read as text, else those of its text.
pub open spec fn spec_run_checks(binary: bool, content: Option<Seq<char>>) -> Seq<Finding> {
    if binary {
        seq![]
    } else {
        match content {
            None => seq![(Severity::Error, "Failed to read file (possibly binary or encoding issue)"@)],
            Some(c) => spec_content_checks(c),
        }
    }
}

fn push_line_secrets(results: &mut Vec<CheckResult>, line: &[char], n: usize)
    ensures
        findings(final(results)@) == findings(old(results)@) + secret_findings(line@, n as nat),
{
    let text = string_of(line);
    let mut k: usize = 0;
    assert(findings(results@) == findings(old(results)@) + line_secrets(line@, n as nat, 0));
    while k < 3
        invariant
            k <= 3,
            text@ == line@,
            findings(results@) == findings(old(results)@) + line_secrets(line@, n as nat, k as nat),
        decreases 3 - k,
    {
        let found = match regex_new(secret_pattern_text(k)) {
            Some(re) => regex_is_match(&re, text.as_str()),
            None => false,
        };
        if found {
            let mut tail = chars_of(": Possible ");
            push_str(&mut tail, secret_name_text(k));
            push_str(&mut tail, " found");
            let mut m = chars_of("Line ");
            push_decimal(&mut m, n);
            push_chars(&mut m, tail.as_slice());
            assert(m@ == line_message(n as nat, ": Possible "@ + secret_name(k as int) + " found"@));
            push_result(results, Severity::Error, m.as_slice());
        }
        k = k + 1;
    }
}


fn push_secrets_section(results: &mut Vec<CheckResult>, lines: &Vec<Vec<char>>)
    ensures
        findings(final(results)@) == findings(old(results)@) + secrets_section(
            views(lines@),
            lines.len() as nat,
        ),
{
    let mut i: usize = 0;
    while i < lines.len()
        invariant
            i <= lines.len(),
            findings(results@) == findings(old(results)@) + secrets_section(views(lines@), i as nat),
        decreases lines.len() - i,
    {
        push_line_secrets(results, lines[i].as_slice(), i + 1);
        i = i + 1;
    }
}

fn push_markers_section(results: &mut Vec<CheckResult>, lines: &Vec<Vec<char>>)
    ensures
        findings(final(results)@) == findings(old(results)@) + markers_section(
            views(lines@),
            lines.len() as nat,
        ),
{
    let mut i: usize = 0;
    while i < lines.len()
        invariant
            i <= lines.len(),
            findings(results@) == findings(old(results)@) + markers_section(views(lines@), i as nat),
        decreases lines.len() - i,
    {
        let line = lines[i].as_slice();
        if starts_with_str(line, "<<<<<<< HEAD") || starts_with_str(line, ">>>>>>>")
            || starts_with_str(line, "=======") {
            let m = make_line_message(i + 1, ": Unresolved merge conflict marker");
            push_result(results, Severity::Error, m.as_slice());
        }
        i = i + 1;
    }
}

fn push_blanks_section(results: &mut Vec<CheckResult>, lines: &Vec<Vec<char>>)
    ensures
        findings(final(results)@) == findings(old(results)@) + blanks_section(
            views(lines@),
            lines.len() as nat,
        ),
{
    let mut i: usize = 0;
    while i < lines.len()
        invariant
            i <= lines.len(),
            findings(results@) == findings(old(results)@) + blanks_section(views(lines@), i as nat),
        decreases lines.len() - i,
    {
        let line = lines[i].as_slice();
        if line.len() > 0 && (line[line.len() - 1] == ' ' || line[line.len() - 1] == '\t') {
            let m = make_line_message(i + 1, ": Trailing whitespace");
            push_result(results, Severity::Warning, m.as_slice());
        }
        i = i + 1;
    }
}

fn push_crs_section(results: &mut Vec<CheckResult>, pcs: &Vec<Vec<char>>)
    ensures
        findings(final(results)@) == findings(old(results)@) + crs_section(
            views(pcs@),
            pcs.len() as nat,
        ),
{
    let ghost pv = views(pcs@);
    let mut i: usize = 0;
    while i < pcs.len()
        invariant
            i <= pcs.len(),
            pv == views(pcs@),
            findings(results@) == findings(old(results)@) + crs_section(pv, i as nat),
        decreases pcs.len() - i,
    {
        let p = pcs[i].as_slice();
        assert(pv[i as int] == p@);
        let ghost before = findings(results@);
        if contains_char(p, '\r') {
            let m = make_line_message(i + 1, ": CRLF line ending (should be LF)");
            push_result(results, Severity::Info, m.as_slice());
        }
        assert(findings(results@) =~= findings(old(results)@) + crs_section(pv, (i + 1) as nat));
        i = i + 1;
    }
}

/// Runs every check on the text of a file. The file's bytes are looked at by
/// the caller: `binary` says whether they hold a NUL byte (see [`is_binary`]),
/// and `content` is the text, or `None` when it could not be read as UTF-8.
pub fn run_checks_on_file(binary: bool, content: Option<&str>) -> (res: Vec<CheckResult>)
    ensures
        findings(res@) == spec_run_checks(
            binary,
            match content {
                Some(c) => Some(c@),
                None => None,
            },
        ),
{
    let mut results: Vec<CheckResult> = Vec::new();
    if binary {
        assert(findings(results@) =~= Seq::<Finding>::empty());
        return results;
    }
    match content {
        None => {
            let m = chars_of("Failed to read file (possibly binary or encoding issue)");
            push_result(&mut results, Severity::Error, m.as_slice());
            assert(findings(results@) =~= seq![
                (Severity::Error, "Failed to read file (possibly binary or encoding issue)"@),
            ]);
            results
        },
        Some(text) => {
            let c = chars_of(text);
            let lines = split_lines(c.as_slice());
            assert(findings(results@) =~= Seq::<Finding>::empty());
            push_secrets_section(&mut results, &lines);
            push_markers_section(&mut results, &lines);
            push_blanks_section(&mut results, &lines);
            if lines.len() > 0 && !ends_with(c.as_slice(), chars_of("\n").as_slice()) {
                let m = chars_of("No newline at end of file");
                push_result(&mut results, Severity::Warning, m.as_slice());
            }
            let pcs = pieces(c.as_slice());
            push_crs_section(&mut results, &pcs);
            if starts_with_str(c.as_slice(), "\u{feff}") {
                let m = chars_of("File contains UTF-8 BOM (should be removed)");
                push_result(&mut results, Severity::Info, m.as_slice());
            }
            results
        },
    }
}

/// Whether a file counts as binary, given the first bytes read from it (up to
/// 8192), or `None` when it could not be opened or read: unreadable files and
/// files with a NUL byte among those bytes are binary.
pub fn is_binary(head: Option<&[u8]>) -> (res: bool)
    ensures
        head is None ==> res,
        head matches Some(h) ==> res == h@.contains(0u8),
{
    match head {
        None => true,
        Some(h) => {
            let mut i: usize = 0;
            while i < h.len()
                invariant
                    head == Some(h),
                    i <= h.len(),
                    forall|j: int| 0 <= j < i ==> h@[j] != 0u8,
                decreases h.len() - i,
            {
                if h[i] == 0u8 {
                    assert(h@[i as int] == 0u8);
                    return true;
                }
                i = i + 1;
            }
            false
        },
    }
}


// ---------------------------------------------------------------------
// Fixing
// ---------------------------------------------------------------------

/// What fixing a file comes to: whether anything was fixed, what was done,
/// and the new text to write to the file, if it is to be written.
pub struct FixOutcome {
    pub fixed: bool,
    pub issues: Vec<CheckResult>,
    pub write: Option<String>,
}

/// A fix outcome as a mathematical value.
pub struct FixPlan {
    pub fixed: bool,
    pub issues: Seq<Finding>,
    pub write: Option<Seq<char>>,
}

impl View for FixOutcome {
    type V = FixPlan;

    open spec fn view(&self) -> FixPlan {
        FixPlan {
            fixed: self.fixed,
            issues: findings(self.issues@),
            write: match self.write {
                Some(w) => Some(w@),
                None => None,
            },
        }
    }
}

/// A line ending in a space or tab loses all its trailing whitespace.
pub open spec fn trim_line(line: Seq<char>) -> Seq<char> {
    if ends_in_blank(line) {
        spec_trim_end(line)
    } else {
        line
    }
}

/// The line of piece `k`: the piece without the carriage return of a CRLF
/// end.
pub open spec fn piece_body(pieces: Seq<Seq<char>>, k: int) -> Seq<char> {
    if crlf_at(pieces, k) {
        pieces[k].drop_last()
    } else {
        pieces[k]
    }
}

/// Piece `k` after fixing: its line trimmed when `fix_trim`, and its CRLF
/// end, if any, kept unless `fix_crlf` (the line feed itself stays).
pub open spec fn fixed_piece(pieces: Seq<Seq<char>>, k: int, fix_trim: bool, fix_crlf: bool) -> Seq<char> {
    let b = if fix_trim {
        trim_line(piece_body(pieces, k))
    } else {
        piece_body(pieces, k)
    };
    if crlf_at(pieces, k) && !fix_crlf {
        b.push('\r')
    } else {
        b
    }
}

/// Every piece after fixing.
pub open spec fn fixed_pieces(pieces: Seq<Seq<char>>, fix_trim: bool, fix_crlf: bool) -> Seq<Seq<char>> {
    Seq::new(pieces.len(), |k: int| fixed_piece(pieces, k, fix_trim, fix_crlf))
}

/// Some line ends in a space or tab.
pub open spec fn any_blank(pieces: Seq<Seq<char>>) -> bool {
    exists|k: int| 0 <= k < pieces.len() && ends_in_blank(#[trigger] piece_body(pieces, k))
}

/// Some line has a CRLF end.
pub open spec fn any_crlf(pieces: Seq<Seq<char>>) -> bool {
    exists|k: int| #[trigger] crlf_at(pieces, k)
}

/// The whitespace fix runs with `all`, with `trim`, and when none of the four
/// fix flags is given.
pub open spec fn fix_trim_on(all: bool, trim: bool, eof: bool, crlf: bool, bom: bool) -> bool {
    all || trim || !(eof || crlf || bom)
}

/// The final-newline fix runs with `all`, with `eof`, and when none of the
/// four fix flags is given.
pub open spec fn fix_eof_on(all: bool, trim: bool, eof: bool, crlf: bool, bom: bool) -> bool {
    all || eof || !(trim || crlf || bom)
}

/// The byte order mark is removed (with `all` or `bom`) from a text that
/// begins with one.
pub open spec fn bom_removed(content: Seq<char>, all: bool, bom: bool) -> bool {
    (all || bom) && spec_starts_with(content, "\u{feff}"@)
}

/// The text the line fixes work on: the content, without its byte order
/// mark when that is removed.
pub open spec fn fix_input(content: Seq<char>, all: bool, bom: bool) -> Seq<char> {
    if bom_removed(content, all, bom) {
        content.drop_first()
    } else {
        content
    }
}

/// The pieces after the whitespace and CRLF fixes, joined again.
pub open spec fn fixed_body(content: Seq<char>, all: bool, trim: bool, eof: bool, crlf: bool, bom: bool) -> Seq<char> {
    spec_join(
        fixed_pieces(
            spec_pieces(fix_input(content, all, bom)),
            fix_trim_on(all, trim, eof, crlf, bom),
            all || crlf,
        ),
        "\n"@,
    )
}

/// The final-newline fix adds a line feed to a non-empty text that does not
/// end with one.
pub open spec fn newline_added(content: Seq<char>, all: bool, trim: bool, eof: bool, crlf: bool, bom: bool) -> bool {
    let b = fixed_body(content, all, trim, eof, crlf, bom);
    fix_eof_on(all, trim, eof, crlf, bom) && b.len() > 0 && b.last() != '\n'
}

/// The text after every selected fix.
pub open spec fn fixed_text(content: Seq<char>, all: bool, trim: bool, eof: bool, crlf: bool, bom: bool) -> Seq<char> {
    let b = fixed_body(content, all, trim, eof, crlf, bom);
    if newline_added(content, all, trim, eof, crlf, bom) {
        b.push('\n')
    } else {
        b
    }
}

/// A note, present when `cond` holds.
pub open spec fn note_if(cond: bool, message: Seq<char>) -> Seq<Finding> {
    if cond {
        seq![(Severity::Info, message)]
    } else {
        seq![]
    }
}

/// What fixing a file does. With `all` every fix runs; with none of the
/// flags `trim`, `eof`, `crlf`, `bom`, the whitespace and final-newline fixes
/// run; otherwise the flagged ones. A byte order mark is removed first; then
/// each line loses its trailing whitespace and its CRLF end becomes a line
/// feed; then a missing final newline is added. Each fix that changed
/// something is reported, and the text is written unless on a dry run.
pub open spec fn spec_fix_file(
    binary: bool,
    content: Seq<char>,
    dry_run: bool,
    all: bool,
    trim: bool,
    eof: bool,
    crlf: bool,
    bom: bool,
) -> FixPlan {
    let ps = spec_pieces(fix_input(content, all, bom));
    let trimmed = fix_trim_on(all, trim, eof, crlf, bom) && any_blank(ps);
    let added = newline_added(content, all, trim, eof, crlf, bom);
    let converted = (all || crlf) && any_crlf(ps);
    let unmarked = bom_removed(content, all, bom);
    let fixed = trimmed || added || converted || unmarked;
    if binary {
        FixPlan { fixed: false, issues: seq![], write: None }
    } else {
        FixPlan {
            fixed,
            issues: note_if(trimmed, "Removed trailing whitespace"@) + note_if(
                added,
                "Added missing newline at EOF"@,
            ) + note_if(converted, "Converted CRLF to LF"@) + note_if(
                unmarked,
                "Removed UTF-8 BOM"@,
            ),
            write: if fixed && !dry_run {
                Some(fixed_text(content, all, trim, eof, crlf, bom))
            } else {
                None
            },
        }
    }
}

fn fix_pieces(ps: &Vec<Vec<char>>, fix_trim: bool, fix_crlf: bool) -> (res: (Vec<Vec<char>>, bool, bool))
    ensures
        views(res.0@) == fixed_pieces(views(ps@), fix_trim, fix_crlf),
        res.1 == any_blank(views(ps@)),
        res.2 == any_crlf(views(ps@)),
{
    let ghost pv = views(ps@);
    let mut out: Vec<Vec<char>> = Vec::new();
    let mut blank = false;
    let mut cr = false;
    let mut k: usize = 0;
    while k < ps.len()
        invariant
            k <= ps.len(),
            pv == views(ps@),
            out@.len() == k,
            forall|j: int| 0 <= j < k ==> views(out@)[j] == fixed_piece(pv, j, fix_trim, fix_crlf),
            blank == exists|j: int| 0 <= j < k && ends_in_blank(#[trigger] piece_body(pv, j)),
            cr == exists|j: int| 0 <= j < k && #[trigger] crlf_at(pv, j),
        decreases ps.len() - k,
    {
        let p = ps[k].as_slice();
        assert(pv[k as int] == p@);
        let is_crlf = k + 1 < ps.len() && p.len() > 0 && p[p.len() - 1] == '\r';
        assert(is_crlf == crlf_at(pv, k as int));
        let body = if is_crlf {
            sub_chars(p, 0, p.len() - 1)
        } else {
            sub_chars(p, 0, p.len())
        };
        assert(body@ == piece_body(pv, k as int));
        let ends_blank = body.len() > 0 && (body[body.len() - 1] == ' ' || body[body.len() - 1]
            == '\t');
        assert(ends_blank == ends_in_blank(piece_body(pv, k as int)));
        let mut b2 = if fix_trim && ends_blank {
            trim_end(body.as_slice())
        } else {
            body
        };
        if is_crlf && !fix_crlf {
            b2.push('\r');
        }
        assert(b2@ == fixed_piece(pv, k as int, fix_trim, fix_crlf));
        let ghost before = views(out@);
        out.push(b2);
        assert(views(out@) == before.push(fixed_piece(pv, k as int, fix_trim, fix_crlf)));
        if ends_blank {
            blank = true;
        }
        if is_crlf {
            cr = true;
        }
        k = k + 1;
    }
    assert(views(out@) =~= fixed_pieces(pv, fix_trim, fix_crlf));
    assert(cr == any_crlf(pv));
    (out, blank, cr)
}

fn push_note(issues: &mut Vec<CheckResult>, message: &str)
    ensures
        findings(final(issues)@) == findings(old(issues)@) + note_if(true, message@),
{
    let m = chars_of(message);
    push_result(issues, Severity::Info, m.as_slice());
}

/// Works out the fixes for a file's text: a byte order mark, trailing
/// whitespace, CRLF line ends and a missing final newline, as selected by the
/// flags. The caller reads the file and writes `write` back when it is given.
pub fn fix_file(
    binary: bool,
    content: &str,
    dry_run: bool,
    all: bool,
    trim: bool,
    eof: bool,
    crlf: bool,
    bom: bool,
) -> (res: FixOutcome)
    ensures
        res@ == spec_fix_file(binary, content@, dry_run, all, trim, eof, crlf, bom),
{
    let ghost g = spec_fix_file(binary, content@, dry_run, all, trim, eof, crlf, bom);
    if binary {
        let r = FixOutcome { fixed: false, issues: Vec::new(), write: None };
        assert(r@.issues =~= g.issues);
        return r;
    }
    let fix_trim = all || trim || !(eof || crlf || bom);
    let fix_eof = all || eof || !(trim || crlf || bom);
    let fix_crlf = all || crlf;
    let c = chars_of(content);
    let unmarked = (all || bom) && starts_with_str(c.as_slice(), "\u{feff}");
    proof {
        reveal_strlit("\u{feff}");
    }
    let text = if unmarked {
        sub_chars(c.as_slice(), 1, c.len())
    } else {
        sub_chars(c.as_slice(), 0, c.len())
    };
    assert(text@ == fix_input(content@, all, bom));
    let ps = pieces(text.as_slice());
    let (fixed_ps, any_b, any_c) = fix_pieces(&ps, fix_trim, fix_crlf);
    let sep = chars_of("\n");
    let mut body = join(&fixed_ps, sep.as_slice());
    assert(body@ == fixed_body(content@, all, trim, eof, crlf, bom));
    let added = fix_eof && body.len() > 0 && body[body.len() - 1] != '\n';
    assert(added == newline_added(content@, all, trim, eof, crlf, bom));
    if added {
        body.push('\n');
    }
    assert(body@ == fixed_text(content@, all, trim, eof, crlf, bom));
    let trimmed = fix_trim && any_b;
    let converted = fix_crlf && any_c;
    let mut issues: Vec<CheckResult> = Vec::new();
    assert(findings(issues@) =~= Seq::<Finding>::empty());
    if trimmed {
        push_note(&mut issues, "Removed trailing whitespace");
    }
    if added {
        push_note(&mut issues, "Added missing newline at EOF");
    }
    if converted {
        push_note(&mut issues, "Converted CRLF to LF");
    }
    if unmarked {
        push_note(&mut issues, "Removed UTF-8 BOM");
    }
    assert(findings(issues@) =~= g.issues);
    let fixed = trimmed || added || converted || unmarked;
    let write = if fixed && !dry_run {
        Some(string_of(body.as_slice()))
    } else {
        None
    };
    FixOutcome { fixed, issues, write }
}


// ---------------------------------------------------------------------
// Checks not yet available
// ---------------------------------------------------------------------

/// The license subcommands.
pub enum LicenseAction {
    /// Check license headers.
    Check,
    /// Add license headers.
    Add { force: bool },
}

/// The dependency subcommands.
pub enum DepsAction {
    /// Check for outdated dependencies.
    Check,
    /// Update dependencies.
    Update { yes: bool },
    /// List the dependencies.
    List,
}

/// What `prep license` reports: the check is not available yet.
pub fn license_check(action: &LicenseAction) -> (res: String)
    ensures
        res@ == "License check (not yet implemented)"@,
{
    "License check (not yet implemented)".to_owned()
}

/// What `prep deps` reports: the check is not available yet.
pub fn deps_check(action: &DepsAction) -> (res: String)
    ensures
        res@ == "Dependency check (not yet implemented)"@,
{
    "Dependency check (not yet implemented)".to_owned()
}

/// What `prep duplicates` reports: the finder is not available yet.
pub fn find_duplicates(delete: bool, move_to_trash: bool) -> (res: String)
    ensures
        res@ == "Duplicate finder (not yet implemented)"@,
{
    "Duplicate finder (not yet implemented)".to_owned()
}


/// Lines none of which ends in a space or tab give no trailing-whitespace
/// finding.
pub proof fn lemma_no_blank_findings(lines: Seq<Seq<char>>, count: nat)
    requires
        count <= lines.len(),
        forall|i: int| 0 <= i < count ==> !ends_in_blank(#[trigger] lines[i]),
    ensures
        blanks_section(lines, count) == Seq::<Finding>::empty(),
    decreases count,
{
    if count > 0 {
        lemma_no_blank_findings(lines, (count - 1) as nat);
        assert(!ends_in_blank(lines[count - 1]));
        assert(blanks_section(lines, count) == blanks_section(lines, (count - 1) as nat) + blank_findings(
            lines[count - 1],
            count,
        ));
    }
}


/// `prep fix --dry-run` shows what would be fixed without changing the file:
/// it says whether the file would be fixed and lists the fixes exactly as
/// `prep fix` does, and it writes nothing.
pub proof fn lemma_dry_run_previews_fix(
    binary: bool,
    content: Seq<char>,
    all: bool,
    trim: bool,
    eof: bool,
    crlf: bool,
    bom: bool,
)
    ensures
        ({
            let dry = spec_fix_file(binary, content, true, all, trim, eof, crlf, bom);
            let wet = spec_fix_file(binary, content, false, all, trim, eof, crlf, bom);
            &&& dry.write is None
            &&& dry.fixed == wet.fixed
            &&& dry.issues == wet.issues
            &&& wet.fixed ==> wet.write is Some
        }),
{
}

/// No line of the text ends with a carriage return (a `"\r\r\n"` or a lone
/// `'\r'` at the very end would leave one).
pub open spec fn no_cr_line_ends(content: Seq<char>) -> bool {
    forall|i: int| 0 <= i < spec_lines(content).len() ==> {
        let l = #[trigger] spec_lines(content)[i];
        !(l.len() > 0 && l.last() == '\r')
    }
}

/// A line that ends with a space or tab followed by a carriage return.
pub open spec fn blank_before_cr(line: Seq<char>) -> bool {
    line.len() >= 2 && line.last() == '\r' && (line[line.len() - 2] == ' ' || line[line.len() - 2]
        == '\t')
}

proof fn lemma_fixed_piece_no_newline(ps: Seq<Seq<char>>, k: int, fix_trim: bool, fix_crlf: bool)
    requires
        0 <= k < ps.len(),
        !ps[k].contains('\n'),
    ensures
        !fixed_piece(ps, k, fix_trim, fix_crlf).contains('\n'),
{
    let body = piece_body(ps, k);
    assert(!body.contains('\n')) by {
        if body.contains('\n') {
            let j = choose|j: int| 0 <= j < body.len() && body[j] == '\n';
            assert(ps[k][j] == '\n');
        }
    }
    let b = if fix_trim {
        trim_line(body)
    } else {
        body
    };
    assert(!b.contains('\n')) by {
        if b.contains('\n') {
            crate::text::lemma_trim_end_shape(body);
            let j = choose|j: int| 0 <= j < b.len() && b[j] == '\n';
            assert(body[j] == '\n');
        }
    }
    let f = fixed_piece(ps, k, fix_trim, fix_crlf);
    assert(!f.contains('\n')) by {
        if f.contains('\n') {
            let j = choose|j: int| 0 <= j < f.len() && f[j] == '\n';
            assert(b[j] == '\n');
        }
    }
}

/// When fixing changes nothing it reports nothing: a text with no fix to
/// make comes out of the fixes as it went in.
pub proof fn lemma_nothing_to_fix(content: Seq<char>, all: bool, trim: bool, eof: bool, crlf: bool, bom: bool)
    requires
        !spec_fix_file(false, content, false, all, trim, eof, crlf, bom).fixed,
    ensures
        fixed_text(content, all, trim, eof, crlf, bom) == content,
{
    let ps = spec_pieces(content);
    let ft = fix_trim_on(all, trim, eof, crlf, bom);
    let fc = all || crlf;
    assert(fix_input(content, all, bom) == content);
    lemma_pieces(content);
    let q = fixed_pieces(ps, ft, fc);
    assert forall|k: int| 0 <= k < ps.len() implies #[trigger] q[k] == ps[k] by {
        let body = piece_body(ps, k);
        assert(!(ft && ends_in_blank(body)));
        if crlf_at(ps, k) {
            assert(!fc);
            assert(body.push('\r') =~= ps[k]);
        }
    }
    assert(q =~= ps);
}

/// A trimmed line ends in no space or tab, and neither does what it is once
/// a carriage return before a line feed is taken off, unless its own kept
/// CRLF end shields that carriage return.
proof fn lemma_fixed_line_fine(ps: Seq<Seq<char>>, k: int, fc: bool)
    requires
        0 <= k < ps.len(),
        blank_before_cr(piece_body(ps, k)) ==> k < ps.len() - 1 && !fc,
    ensures
        !ends_in_blank(trim_line(piece_body(ps, k))),
        !(crlf_at(ps, k) && !fc) ==> !ends_in_blank(strip_cr(trim_line(piece_body(ps, k)))),
{
    let body_k = piece_body(ps, k);
    if ends_in_blank(body_k) {
        crate::text::lemma_trim_end_shape(body_k);
    } else if blank_before_cr(body_k) {
        assert(crlf_at(ps, k)) by {
            if !crlf_at(ps, k) {
                assert(body_k == ps[k]);
            }
        }
    }
}

/// `prep fix` leaves no line with trailing whitespace and the text ending
/// in a newline: with the whitespace and final-newline fixes on, the text
/// after fixing (the written text, or the file as it was when nothing is
/// written) has no trailing-whitespace finding and no missing-newline
/// finding, and is empty or ends with a line feed. The one exception is a
/// line (as `str::lines` gives it) ending with a space or tab followed by a
/// carriage return where that carriage return comes to stand right before a
/// line feed: on the last line, which gets a final newline, and, with the
/// CRLF fix, on a line ending in CR CR LF, whose CRLF end becomes a line feed.
pub proof fn lemma_fix_leaves_clean_text(
    content: Seq<char>,
    all: bool,
    trim: bool,
    eof: bool,
    crlf: bool,
    bom: bool,
)
    requires
        fix_trim_on(all, trim, eof, crlf, bom),
        fix_eof_on(all, trim, eof, crlf, bom),
        forall|k: int|
            0 <= k < spec_pieces(fix_input(content, all, bom)).len() && blank_before_cr(
                #[trigger] piece_body(spec_pieces(fix_input(content, all, bom)), k),
            ) ==> k < spec_pieces(fix_input(content, all, bom)).len() - 1 && !(all || crlf),
    ensures
        ({
            let after = match spec_fix_file(false, content, false, all, trim, eof, crlf, bom).write {
                Some(w) => w,
                None => content,
            };
            &&& blanks_section(spec_lines(after), spec_lines(after).len()) == Seq::<Finding>::empty()
            &&& eof_section(after) == Seq::<Finding>::empty()
            &&& (after.len() == 0 || after.last() == '\n')
        }),
{
    reveal_strlit("\n");
    let plan = spec_fix_file(false, content, false, all, trim, eof, crlf, bom);
    let out = fixed_text(content, all, trim, eof, crlf, bom);
    if !plan.fixed {
        lemma_nothing_to_fix(content, all, trim, eof, crlf, bom);
    }
    let after = match plan.write {
        Some(w) => w,
        None => content,
    };
    assert(after == out);
    let t = fix_input(content, all, bom);
    let ps = spec_pieces(t);
    lemma_pieces(t);
    let fc = all || crlf;
    let q = fixed_pieces(ps, true, fc);
    let body = spec_join(q, "\n"@);
    assert(body == fixed_body(content, all, trim, eof, crlf, bom));
    let added = newline_added(content, all, trim, eof, crlf, bom);
    let q2 = if added {
        q.push(seq![])
    } else {
        q
    };
    assert(spec_join(q2, "\n"@) == out) by {
        if added {
            assert(q2.drop_last() =~= q);
            assert(body.push('\n') =~= body + "\n"@ + Seq::<char>::empty());
        }
    }
    assert forall|k: int| 0 <= k < ps.len() implies {
        let b = trim_line(#[trigger] piece_body(ps, k));
        &&& !ends_in_blank(b)
        &&& !(crlf_at(ps, k) && !fc) ==> !ends_in_blank(strip_cr(b))
    } by {
        lemma_fixed_line_fine(ps, k, fc);
    }
    assert forall|i: int| 0 <= i < q2.len() implies !(#[trigger] q2[i]).contains('\n') by {
        if i < ps.len() {
            lemma_fixed_piece_no_newline(ps, i, true, fc);
            assert(q2[i] == q[i]);
        }
    }
    let good = |l: Seq<char>| !ends_in_blank(l);
    assert forall|j: int| 0 <= j < q2.len() implies good(#[trigger] piece_line(q2, j)) by {
        if j < ps.len() {
            let b = trim_line(piece_body(ps, j));
            assert(q2[j] == q[j]);
            assert(q[j] == fixed_piece(ps, j, true, fc));
            assert(!ends_in_blank(b));
            if crlf_at(ps, j) && !fc {
                assert(strip_cr(b.push('\r')) =~= b);
                assert(j < q2.len() - 1);
            }
        }
    }
    lemma_lines_of_join_keep(q2, good);
    let lines = spec_lines(out);
    assert forall|i: int| 0 <= i < lines.len() implies !ends_in_blank(#[trigger] lines[i]) by {
        assert(good(lines[i]));
    }
    lemma_no_blank_findings(lines, lines.len());
    if out.len() == 0 {
        assert(spec_lines(out).len() == 0);
    } else {
        assert(out.last() == '\n');
        assert(out.subrange(out.len() - 1, out.len() as int) =~= "\n"@);
    }
}

proof fn lemma_per_line_contains(
    lines: Seq<Seq<char>>,
    count: nat,
    f: spec_fn(Seq<char>, nat) -> Seq<Finding>,
    j: int,
    x: Finding,
)
    requires
        0 <= j < count,
        count <= lines.len(),
        f(lines[j], (j + 1) as nat).contains(x),
    ensures
        per_line(lines, count, f).contains(x),
    decreases count,
{
    let prev = per_line(lines, (count - 1) as nat, f);
    let last = f(lines[count - 1], count);
    assert(per_line(lines, count, f) == prev + last);
    if j == count - 1 {
        let m = choose|m: int| 0 <= m < last.len() && last[m] == x;
        assert((prev + last)[prev.len() + m] == x);
    } else {
        lemma_per_line_contains(lines, (count - 1) as nat, f, j, x);
        let m = choose|m: int| 0 <= m < prev.len() && prev[m] == x;
        assert((prev + last)[m] == x);
    }
}

proof fn lemma_secret_kind_reported(content: Seq<char>, i: int, k: int)
    requires
        0 <= i < spec_lines(content).len(),
        0 <= k < 3,
        secret_found(k, spec_lines(content)[i]),
    ensures
        spec_content_checks(content).contains(
            (Severity::Error, line_message((i + 1) as nat, ": Possible "@ + secret_name(k) + " found"@)),
        ),
{
    let lines = spec_lines(content);
    let n = lines.len();
    let line = lines[i];
    let x = (Severity::Error, line_message((i + 1) as nat, ": Possible "@ + secret_name(k) + " found"@));
    assert(line_secrets(line, (i + 1) as nat, (k + 1) as nat).contains(x)) by {
        let ls = line_secrets(line, (i + 1) as nat, (k + 1) as nat);
        let prev = line_secrets(line, (i + 1) as nat, k as nat);
        assert(ls == prev + seq![x]);
        assert(ls[prev.len() as int] == x);
    }
    assert(secret_findings(line, (i + 1) as nat).contains(x)) by {
        let mut m: nat = (k + 1) as nat;
        let a = line_secrets(line, (i + 1) as nat, (k + 1) as nat);
        let j = choose|j: int| 0 <= j < a.len() && a[j] == x;
        if k == 0 {
            let b = line_secrets(line, (i + 1) as nat, 2);
            assert(b == a + (line_secrets(line, (i + 1) as nat, 2).subrange(a.len() as int, b.len() as int)));
            assert(b[j] == x);
            let c = line_secrets(line, (i + 1) as nat, 3);
            assert(c[j] == x);
        } else if k == 1 {
            let c = line_secrets(line, (i + 1) as nat, 3);
            assert(c[j] == x);
        }
    }
    let f = |l: Seq<char>, m: nat| secret_findings(l, m);
    assert(f(lines[i], (i + 1) as nat) == secret_findings(line, (i + 1) as nat));
    lemma_per_line_contains(lines, n, f, i, x);
    let sec = secrets_section(lines, n);
    let all = spec_content_checks(content);
    let j = choose|j: int| 0 <= j < sec.len() && sec[j] == x;
    assert(all[j] == x);
}

/// A line in which the AWS access key regex `AKIA[0-9A-Z]{16}` finds a match
/// is reported as an error, `Line <n>: Possible AWS Access Key found`.
pub proof fn lemma_aws_key_reported(content: Seq<char>, i: int)
    requires
        0 <= i < spec_lines(content).len(),
        regex_compiles("AKIA[0-9A-Z]{16}"@),
        regex_captures("AKIA[0-9A-Z]{16}"@, spec_lines(content)[i]) is Some,
    ensures
        spec_content_checks(content).contains(
            (Severity::Error, "Line "@ + spec_decimal((i + 1) as nat) + ": Possible AWS Access Key found"@),
        ),
{
    reveal_strlit(": Possible ");
    reveal_strlit("AWS Access Key");
    reveal_strlit(" found");
    reveal_strlit(": Possible AWS Access Key found");
    assert(secret_pattern(0) == "AKIA[0-9A-Z]{16}"@);
    lemma_secret_kind_reported(content, i, 0);
    assert(": Possible "@ + secret_name(0) + " found"@ =~= ": Possible AWS Access Key found"@);
}

/// A line in which the private key regex
/// `-----BEGIN (RSA|DSA|EC) PRIVATE KEY-----` finds a match (an RSA, DSA or
/// EC key header) is reported as an error, `Line <n>: Possible Private Key
/// found`.
pub proof fn lemma_private_key_reported(content: Seq<char>, i: int)
    requires
        0 <= i < spec_lines(content).len(),
        regex_compiles("-----BEGIN (RSA|DSA|EC) PRIVATE KEY-----"@),
        regex_captures("-----BEGIN (RSA|DSA|EC) PRIVATE KEY-----"@, spec_lines(content)[i]) is Some,
    ensures
        spec_content_checks(content).contains(
            (Severity::Error, "Line "@ + spec_decimal((i + 1) as nat) + ": Possible Private Key found"@),
        ),
{
    reveal_strlit(": Possible ");
    reveal_strlit("Private Key");
    reveal_strlit(" found");
    reveal_strlit(": Possible Private Key found");
    assert(secret_pattern(1) == "-----BEGIN (RSA|DSA|EC) PRIVATE KEY-----"@);
    lemma_secret_kind_reported(content, i, 1);
    assert(": Possible "@ + secret_name(1) + " found"@ =~= ": Possible Private Key found"@);
}

/// A line in which the JWT regex finds a match is reported as an error,
/// `Line <n>: Possible JWT Token found`.
pub proof fn lemma_jwt_reported(content: Seq<char>, i: int)
    requires
        0 <= i < spec_lines(content).len(),
        regex_compiles("eyJ[A-Za-z0-9_-]{10,}\\.[A-Za-z0-9_-]{10,}\\.[A-Za-z0-9_-]{10,}"@),
        regex_captures(
            "eyJ[A-Za-z0-9_-]{10,}\\.[A-Za-z0-9_-]{10,}\\.[A-Za-z0-9_-]{10,}"@,
            spec_lines(content)[i],
        ) is Some,
    ensures
        spec_content_checks(content).contains(
            (Severity::Error, "Line "@ + spec_decimal((i + 1) as nat) + ": Possible JWT Token found"@),
        ),
{
    reveal_strlit(": Possible ");
    reveal_strlit("JWT Token");
    reveal_strlit(" found");
    reveal_strlit(": Possible JWT Token found");
    assert(secret_pattern(2) == "eyJ[A-Za-z0-9_-]{10,}\\.[A-Za-z0-9_-]{10,}\\.[A-Za-z0-9_-]{10,}"@);
    lemma_secret_kind_reported(content, i, 2);
    assert(": Possible "@ + secret_name(2) + " found"@ =~= ": Possible JWT Token found"@);
}

} // verus!

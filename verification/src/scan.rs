//! Repository-wide commands: the audit and CI verdicts, search, the
//! manifest, repository information, whitespace trimming, release tags and
//! the selection of files by glob patterns.

use vstd::prelude::*;
use crate::bridge::{
    glob_compiles, glob_is_match, glob_matches, glob_new, hex_encode, lower_case, regex_captures,
    regex_compiles, regex_is_match, regex_new, sha256, sha256_digest, spec_hex, string_of,
    to_lowercase, CompiledGlob,
};
use crate::checks::{findings, CheckResult, Finding, Severity};
use crate::tally::{count_views, key_views, rank, rank_desc, spec_tally, tally, Count};
use crate::text::{
    chars_of, contains_str, ends_with, find, join, lemma_find_from, push_chars, push_decimal, push_str,
    spec_contains, spec_decimal, spec_ends_with, spec_find, spec_join, spec_lines, spec_trim,
    spec_trim_end,
    split_lines, sub_chars, trim, trim_end, views,
};

verus! {

// ---------------------------------------------------------------------
// Audit and CI
// ---------------------------------------------------------------------

/// How many findings have severity `sev`.
pub open spec fn count_sev(fs: Seq<Finding>, sev: Severity) -> nat
    decreases fs.len(),
{
    if fs.len() == 0 {
        0
    } else {
        count_sev(fs.drop_last(), sev) + if fs.last().0 == sev {
            1nat
        } else {
            0nat
        }
    }
}

/// How many findings of severity `sev` there are over all files.
pub open spec fn total_sev(checked: Seq<Seq<Finding>>, sev: Severity) -> nat
    decreases checked.len(),
{
    if checked.len() == 0 {
        0
    } else {
        total_sev(checked.drop_last(), sev) + count_sev(checked.last(), sev)
    }
}

/// The findings of each checked file.
pub open spec fn file_findings(checked: Seq<(String, Vec<CheckResult>)>) -> Seq<Seq<Finding>> {
    checked.map_values(|c: (String, Vec<CheckResult>)| findings(c.1@))
}

proof fn lemma_count_sev_bound(fs: Seq<Finding>, sev: Severity)
    ensures
        count_sev(fs, sev) <= fs.len(),
    decreases fs.len(),
{
    if fs.len() > 0 {
        lemma_count_sev_bound(fs.drop_last(), sev);
    }
}

fn count_in(results: &Vec<CheckResult>, sev: Severity) -> (res: usize)
    ensures
        res == count_sev(findings(results@), sev),
{
    let ghost fs = findings(results@);
    let mut n: usize = 0;
    let mut i: usize = 0;
    while i < results.len()
        invariant
            i <= results.len(),
            fs == findings(results@),
            n == count_sev(fs.take(i as int), sev),
            n <= i,
        decreases results.len() - i,
    {
        assert(fs.take(i + 1).drop_last() == fs.take(i as int));
        assert(fs.take(i + 1).last() == results@[i as int]@);
        if results[i].severity == sev {
            n = n + 1;
        }
        i = i + 1;
    }
    assert(fs.take(results.len() as int) == fs);
    n
}

/// Counts the errors and the warnings found over all files, as far as they
/// fit in a `usize` (the count stops growing at `usize::MAX`).
pub fn count_findings(checked: &[(String, Vec<CheckResult>)]) -> (res: (usize, usize))
    ensures
        res.0 == if total_sev(file_findings(checked@), Severity::Error) <= usize::MAX {
            total_sev(file_findings(checked@), Severity::Error)
        } else {
            usize::MAX as nat
        },
        res.1 == if total_sev(file_findings(checked@), Severity::Warning) <= usize::MAX {
            total_sev(file_findings(checked@), Severity::Warning)
        } else {
            usize::MAX as nat
        },
{
    let ghost ff = file_findings(checked@);
    let mut e: usize = 0;
    let mut w: usize = 0;
    let mut i: usize = 0;
    while i < checked.len()
        invariant
            i <= checked.len(),
            ff == file_findings(checked@),
            e == if total_sev(ff.take(i as int), Severity::Error) <= usize::MAX {
                total_sev(ff.take(i as int), Severity::Error)
            } else {
                usize::MAX as nat
            },
            w == if total_sev(ff.take(i as int), Severity::Warning) <= usize::MAX {
                total_sev(ff.take(i as int), Severity::Warning)
            } else {
                usize::MAX as nat
            },
        decreases checked.len() - i,
    {
        assert(ff.take(i + 1).drop_last() == ff.take(i as int));
        assert(ff.take(i + 1).last() == findings(checked@[i as int].1@));
        let a = count_in(&checked[i].1, Severity::Error);
        let b = count_in(&checked[i].1, Severity::Warning);
        e = if e <= usize::MAX - a {
            e + a
        } else {
            usize::MAX
        };
        w = if w <= usize::MAX - b {
            w + b
        } else {
            usize::MAX
        };
        i = i + 1;
    }
    assert(ff.take(checked.len() as int) == ff);
    (e, w)
}

/// Whether `prep ci` fails: on any error, on any warning when asked to, and
/// on more warnings than the threshold.
pub fn ci_failed(errors: usize, warnings: usize, fail_on_warning: bool, threshold: Option<usize>) -> (res: bool)
    ensures
        res == (errors > 0 || (fail_on_warning && warnings > 0) || match threshold {
            Some(t) => warnings > t,
            None => false,
        }),
{
    if errors > 0 {
        return true;
    }
    if fail_on_warning && warnings > 0 {
        return true;
    }
    match threshold {
        Some(t) => warnings > t,
        None => false,
    }
}

/// One line of the audit output.
pub enum AuditLine {
    /// A file with findings.
    File(String),
    /// A finding about the file above.
    Finding(Severity, String),
}

/// An audit line as a mathematical value.
pub enum AuditLineView {
    File(Seq<char>),
    Finding(Severity, Seq<char>),
}

impl View for AuditLine {
    type V = AuditLineView;

    open spec fn view(&self) -> AuditLineView {
        match self {
            AuditLine::File(p) => AuditLineView::File(p@),
            AuditLine::Finding(s, m) => AuditLineView::Finding(*s, m@),
        }
    }
}

/// The views of audit lines.
pub open spec fn audit_views(v: Seq<AuditLine>) -> Seq<AuditLineView> {
    v.map_values(|l: AuditLine| l@)
}

/// The lines for the findings of one file; infos only when verbose.
pub open spec fn finding_lines(fs: Seq<Finding>, verbose: bool) -> Seq<AuditLineView>
    decreases fs.len(),
{
    if fs.len() == 0 {
        seq![]
    } else {
        finding_lines(fs.drop_last(), verbose) + if fs.last().0 != Severity::Info || verbose {
            seq![AuditLineView::Finding(fs.last().0, fs.last().1)]
        } else {
            seq![]
        }
    }
}

/// The audit output: each file with findings, followed by its findings.
pub open spec fn spec_audit_lines(checked: Seq<(Seq<char>, Seq<Finding>)>, verbose: bool) -> Seq<
    AuditLineView,
>
    decreases checked.len(),
{
    if checked.len() == 0 {
        seq![]
    } else {
        spec_audit_lines(checked.drop_last(), verbose) + if checked.last().1.len() == 0 {
            seq![]
        } else {
            seq![AuditLineView::File(checked.last().0)] + finding_lines(checked.last().1, verbose)
        }
    }
}

/// The checked files as mathematical values.
pub open spec fn checked_pairs(checked: Seq<(String, Vec<CheckResult>)>) -> Seq<(Seq<char>, Seq<Finding>)> {
    checked.map_values(|c: (String, Vec<CheckResult>)| (c.0@, findings(c.1@)))
}

/// The lines printed by `prep audit` for the findings about each file.
pub fn audit_lines(checked: &[(String, Vec<CheckResult>)], verbose: bool) -> (res: Vec<AuditLine>)
    ensures
        audit_views(res@) == spec_audit_lines(checked_pairs(checked@), verbose),
{
    let ghost cp = checked_pairs(checked@);
    let mut out: Vec<AuditLine> = Vec::new();
    let mut i: usize = 0;
    assert(audit_views(out@) =~= spec_audit_lines(cp.take(0), verbose));
    while i < checked.len()
        invariant
            i <= checked.len(),
            cp == checked_pairs(checked@),
            audit_views(out@) == spec_audit_lines(cp.take(i as int), verbose),
        decreases checked.len() - i,
    {
        assert(cp.take(i + 1).drop_last() == cp.take(i as int));
        let results = &checked[i].1;
        let ghost fs = findings(results@);
        assert(cp.take(i + 1).last() == (checked@[i as int].0@, fs));
        if results.len() > 0 {
            let ghost start = audit_views(out@);
            out.push(AuditLine::File(checked[i].0.clone()));
            assert(audit_views(out@) =~= start + seq![AuditLineView::File(checked@[i as int].0@)]);
            let ghost mid = audit_views(out@);
            let mut j: usize = 0;
            assert(audit_views(out@) =~= mid + finding_lines(fs.take(0), verbose));
            while j < results.len()
                invariant
                    i < checked.len(),
                    results == &checked@[i as int].1,
                    fs == findings(results@),
                    j <= results.len(),
                    audit_views(out@) == mid + finding_lines(fs.take(j as int), verbose),
                decreases results.len() - j,
            {
                assert(fs.take(j + 1).drop_last() == fs.take(j as int));
                assert(fs.take(j + 1).last() == results@[j as int]@);
                let r = &results[j];
                if r.severity != Severity::Info || verbose {
                    let ghost before = audit_views(out@);
                    out.push(AuditLine::Finding(r.severity, r.message.clone()));
                    assert(audit_views(out@) =~= before.push(
                        AuditLineView::Finding(r.severity, r.message@),
                    ));
                }
                j = j + 1;
            }
            assert(fs.take(results.len() as int) == fs);
            assert(audit_views(out@) =~= spec_audit_lines(cp.take(i + 1), verbose));
        } else {
            assert(fs.len() == 0);
        }
        i = i + 1;
    }
    assert(cp.take(checked.len() as int) == cp);
    out
}


// ---------------------------------------------------------------------
// Search
// ---------------------------------------------------------------------

/// The regular expression searched for: the pattern, made case-insensitive
/// with an `(?i)` prefix when asked.
pub open spec fn spec_search_regex(pattern: Seq<char>, case_insensitive: bool) -> Seq<char> {
    if case_insensitive {
        "(?i)"@ + pattern
    } else {
        pattern
    }
}

/// The regular expression for `prep search`.
pub fn search_regex(pattern: &str, case_insensitive: bool) -> (res: String)
    ensures
        res@ == spec_search_regex(pattern@, case_insensitive),
{
    if case_insensitive {
        let mut v = chars_of("(?i)");
        push_str(&mut v, pattern);
        string_of(v.as_slice())
    } else {
        pattern.to_owned()
    }
}

/// Whether a regular expression compiles.
pub fn regex_valid(regex: &str) -> (res: bool)
    ensures
        res == regex_compiles(regex@),
{
    regex_new(regex).is_some()
}

/// The lines that match, each with its number (counting from 1), in order.
pub open spec fn matching_lines(regex: Seq<char>, lines: Seq<Seq<char>>, count: nat) -> Seq<(nat, Seq<char>)>
    decreases count,
{
    if count == 0 {
        seq![]
    } else {
        matching_lines(regex, lines, (count - 1) as nat) + if regex_compiles(regex)
            && regex_captures(regex, lines[count - 1]) is Some {
            seq![(count, lines[count - 1])]
        } else {
            seq![]
        }
    }
}

/// The matches as mathematical values.
pub open spec fn match_views(v: Seq<(usize, String)>) -> Seq<(nat, Seq<char>)> {
    v.map_values(|m: (usize, String)| (m.0 as nat, m.1@))
}

/// The lines of a file's text that a regular expression matches, with their
/// numbers (none when the expression does not compile).
pub fn find_matches(regex: &str, content: &str) -> (res: Vec<(usize, String)>)
    ensures
        match_views(res@) == matching_lines(regex@, spec_lines(content@), spec_lines(content@).len()),
{
    let lines = split_lines(chars_of(content).as_slice());
    let ghost lv = views(lines@);
    let re = regex_new(regex);
    let mut out: Vec<(usize, String)> = Vec::new();
    let mut i: usize = 0;
    assert(match_views(out@) =~= Seq::<(nat, Seq<char>)>::empty());
    while i < lines.len()
        invariant
            i <= lines.len(),
            lv == views(lines@),
            lv == spec_lines(content@),
            match_views(out@) == matching_lines(regex@, lv, i as nat),
            re is Some <==> regex_compiles(regex@),
            re matches Some(r) ==> r@ == regex@,
        decreases lines.len() - i,
    {
        let text = string_of(lines[i].as_slice());
        assert(lv[i as int] == text@);
        let found = match &re {
            Some(r) => regex_is_match(r, text.as_str()),
            None => false,
        };
        if found {
            let ghost before = match_views(out@);
            out.push((i + 1, text));
            assert(match_views(out@) =~= before.push(((i + 1) as nat, lv[i as int])));
        }
        i = i + 1;
    }
    out
}

/// The lines `prep search` prints for one file with matches: the path only,
/// or the path and the count, or the path and each matching line (numbered
/// when asked).
pub open spec fn spec_search_output(
    path: Seq<char>,
    matches: Seq<(nat, Seq<char>)>,
    files_only: bool,
    count: bool,
    line_numbers: bool,
) -> Seq<Seq<char>> {
    if files_only {
        seq![path]
    } else if count {
        seq![path + ": "@ + spec_decimal(matches.len())]
    } else {
        seq![path] + matches.map_values(
            |m: (nat, Seq<char>)|
                if line_numbers {
                    "  "@ + spec_decimal(m.0) + ": "@ + m.1
                } else {
                    "  "@ + m.1
                },
        )
    }
}

/// The views of a list of strings.
pub open spec fn text_views(v: Seq<String>) -> Seq<Seq<char>> {
    v.map_values(|s: String| s@)
}

fn push_text(out: &mut Vec<String>, line: &[char])
    ensures
        text_views(final(out)@) == text_views(old(out)@).push(line@),
{
    out.push(string_of(line));
    assert(text_views(out@) =~= text_views(old(out)@).push(line@));
}

/// The lines `prep search` prints for one file with matches.
pub fn search_output(
    path: &str,
    matches: &[(usize, String)],
    files_only: bool,
    count: bool,
    line_numbers: bool,
) -> (res: Vec<String>)
    ensures
        text_views(res@) == spec_search_output(
            path@,
            match_views(matches@),
            files_only,
            count,
            line_numbers,
        ),
{
    let ghost mv = match_views(matches@);
    let mut out: Vec<String> = Vec::new();
    assert(text_views(out@) =~= Seq::<Seq<char>>::empty());
    if files_only {
        push_text(&mut out, chars_of(path).as_slice());
        assert(text_views(out@) =~= seq![path@]);
        return out;
    }
    if count {
        let mut line = chars_of(path);
        push_str(&mut line, ": ");
        push_decimal(&mut line, matches.len());
        push_text(&mut out, line.as_slice());
        assert(text_views(out@) =~= spec_search_output(path@, mv, files_only, count, line_numbers));
        return out;
    }
    push_text(&mut out, chars_of(path).as_slice());
    let ghost head = text_views(out@);
    let mut i: usize = 0;
    while i < matches.len()
        invariant
            i <= matches.len(),
            mv == match_views(matches@),
            text_views(out@) == head + mv.take(i as int).map_values(
                |m: (nat, Seq<char>)|
                    if line_numbers {
                        "  "@ + spec_decimal(m.0) + ": "@ + m.1
                    } else {
                        "  "@ + m.1
                    },
            ),
        decreases matches.len() - i,
    {
        let mut line = chars_of("  ");
        if line_numbers {
            push_decimal(&mut line, matches[i].0);
            push_str(&mut line, ": ");
        }
        push_str(&mut line, matches[i].1.as_str());
        push_text(&mut out, line.as_slice());
        assert(mv.take(i + 1) == mv.take(i as int).push(mv[i as int]));
        i = i + 1;
        assert(text_views(out@) =~= head + mv.take(i as int).map_values(
            |m: (nat, Seq<char>)|
                if line_numbers {
                    "  "@ + spec_decimal(m.0) + ": "@ + m.1
                } else {
                    "  "@ + m.1
                },
        ));
    }
    assert(mv.take(matches.len() as int) == mv);
    out
}


// ---------------------------------------------------------------------
// Manifest
// ---------------------------------------------------------------------

/// The SHA-256 digest of a file's bytes, in lower-case hex.
pub fn file_digest(data: &[u8]) -> (res: String)
    ensures
        res@ == spec_hex(sha256_digest(data@)),
{
    let d = sha256(data);
    hex_encode(d.as_slice())
}

/// A manifest line: the digest, two spaces, and the path.
pub open spec fn manifest_line(entry: (Seq<char>, Seq<char>)) -> Seq<char> {
    entry.1 + "  "@ + entry.0
}

/// The manifest entries (path and digest) as mathematical values.
pub open spec fn entry_views(v: Seq<(String, String)>) -> Seq<(Seq<char>, Seq<char>)> {
    v.map_values(|e: (String, String)| (e.0@, e.1@))
}

/// The manifest: one line per entry, joined by newlines.
pub open spec fn spec_manifest_text(entries: Seq<(Seq<char>, Seq<char>)>) -> Seq<char> {
    spec_join(entries.map_values(|e: (Seq<char>, Seq<char>)| manifest_line(e)), "\n"@)
}

/// The text of the manifest for entries of a path and its digest.
pub fn manifest_text(entries: &[(String, String)]) -> (res: String)
    ensures
        res@ == spec_manifest_text(entry_views(entries@)),
{
    let ghost ev = entry_views(entries@);
    let mut lines: Vec<Vec<char>> = Vec::new();
    let mut i: usize = 0;
    while i < entries.len()
        invariant
            i <= entries.len(),
            ev == entry_views(entries@),
            views(lines@) == ev.take(i as int).map_values(|e: (Seq<char>, Seq<char>)| manifest_line(e)),
        decreases entries.len() - i,
    {
        let mut line = chars_of(entries[i].1.as_str());
        push_str(&mut line, "  ");
        push_str(&mut line, entries[i].0.as_str());
        let ghost before = views(lines@);
        assert(ev[i as int] == (entries@[i as int].0@, entries@[i as int].1@));
        assert(line@ == manifest_line(ev[i as int]));
        lines.push(line);
        assert(views(lines@) =~= before.push(manifest_line(ev[i as int])));
        assert(ev.take(i + 1) == ev.take(i as int).push(ev[i as int]));
        i = i + 1;
        assert(views(lines@) =~= ev.take(i as int).map_values(
            |e: (Seq<char>, Seq<char>)| manifest_line(e),
        ));
    }
    assert(ev.take(entries.len() as int) == ev);
    let sep = chars_of("\n");
    string_of(join(&lines, sep.as_slice()).as_slice())
}

// ---------------------------------------------------------------------
// Repository information
// ---------------------------------------------------------------------

/// The extensions in lower case.
pub open spec fn lowered(exts: Seq<Seq<char>>) -> Seq<Seq<char>> {
    exts.map_values(|e: Seq<char>| lower_case(e))
}

/// The most frequent extensions (in lower case), most frequent first, at
/// most five.
pub open spec fn spec_top_extensions(exts: Seq<Seq<char>>) -> Seq<Count> {
    let ranked = rank_desc(spec_tally(lowered(exts)));
    ranked.take(if ranked.len() < 5 {
        ranked.len() as int
    } else {
        5
    })
}

/// The five most frequent file extensions, compared in lower case.
pub fn top_extensions(exts: &[String]) -> (res: Vec<(String, usize)>)
    ensures
        count_views(res@) == spec_top_extensions(key_views(exts@)),
{
    let ghost kv = key_views(exts@);
    let mut low: Vec<String> = Vec::new();
    let mut i: usize = 0;
    while i < exts.len()
        invariant
            i <= exts.len(),
            kv == key_views(exts@),
            key_views(low@) == lowered(kv.take(i as int)),
        decreases exts.len() - i,
    {
        let l = to_lowercase(exts[i].as_str());
        let ghost before = key_views(low@);
        assert(kv[i as int] == exts@[i as int]@);
        low.push(l);
        assert(key_views(low@) =~= before.push(lower_case(kv[i as int])));
        assert(kv.take(i + 1) == kv.take(i as int).push(kv[i as int]));
        i = i + 1;
        assert(key_views(low@) =~= lowered(kv.take(i as int)));
    }
    assert(kv.take(exts.len() as int) == kv);
    let ranked = rank(&tally(low.as_slice()));
    let ghost rv = count_views(ranked@);
    let n: usize = if ranked.len() < 5 {
        ranked.len()
    } else {
        5
    };
    let mut out: Vec<(String, usize)> = Vec::new();
    let mut j: usize = 0;
    while j < n
        invariant
            j <= n,
            n <= ranked.len(),
            rv == count_views(ranked@),
            count_views(out@) == rv.take(j as int),
        decreases n - j,
    {
        out.push((ranked[j].0.clone(), ranked[j].1));
        assert(rv.take(j + 1) == rv.take(j as int).push(rv[j as int]));
        j = j + 1;
        assert(count_views(out@) =~= rv.take(j as int));
    }
    out
}

/// The lines of `prep info`: the number of files, their size in whole
/// mebibytes, and the most frequent extensions.
pub open spec fn spec_repo_info(files: nat, total_size: nat, top: Seq<Count>) -> Seq<Seq<char>> {
    seq![
        "Repository Info:"@,
        "  Files: "@ + spec_decimal(files),
        "  Total size: "@ + spec_decimal(total_size / (1024 * 1024)) + " MB"@,
        "  Top extensions:"@,
    ] + top.map_values(|c: Count| "    ."@ + c.0 + ": "@ + spec_decimal(c.1))
}

/// The lines of `prep info`.
pub fn repo_info_lines(files: usize, total_size: u64, top: &[(String, usize)]) -> (res: Vec<String>)
    ensures
        text_views(res@) == spec_repo_info(files as nat, total_size as nat, count_views(top@)),
{
    let ghost tv = count_views(top@);
    let mut out: Vec<String> = Vec::new();
    assert(text_views(out@) =~= Seq::<Seq<char>>::empty());
    push_text(&mut out, chars_of("Repository Info:").as_slice());
    let mut l1 = chars_of("  Files: ");
    push_decimal(&mut l1, files);
    push_text(&mut out, l1.as_slice());
    let mb: u64 = total_size / (1024 * 1024);
    let mut l2 = chars_of("  Total size: ");
    crate::text::push_decimal_u64(&mut l2, mb);
    push_str(&mut l2, " MB");
    push_text(&mut out, l2.as_slice());
    push_text(&mut out, chars_of("  Top extensions:").as_slice());
    let ghost head = text_views(out@);
    let mut i: usize = 0;
    while i < top.len()
        invariant
            i <= top.len(),
            tv == count_views(top@),
            text_views(out@) == head + tv.take(i as int).map_values(
                |c: Count| "    ."@ + c.0 + ": "@ + spec_decimal(c.1),
            ),
        decreases top.len() - i,
    {
        let mut line = chars_of("    .");
        push_str(&mut line, top[i].0.as_str());
        push_str(&mut line, ": ");
        push_decimal(&mut line, top[i].1);
        assert(tv[i as int] == (top@[i as int].0@, top@[i as int].1 as nat));
        push_text(&mut out, line.as_slice());
        assert(tv.take(i + 1) == tv.take(i as int).push(tv[i as int]));
        i = i + 1;
        assert(text_views(out@) =~= head + tv.take(i as int).map_values(
            |c: Count| "    ."@ + c.0 + ": "@ + spec_decimal(c.1),
        ));
    }
    assert(tv.take(top.len() as int) == tv);
    out
}

/// The line naming the current commit, from the output of `git rev-parse HEAD`.
pub fn commit_line(output: &str) -> (res: String)
    ensures
        res@ == "  Git commit: "@ + spec_trim(output@),
{
    let mut m = chars_of("  Git commit: ");
    let t = trim(chars_of(output).as_slice());
    push_chars(&mut m, t.as_slice());
    string_of(m.as_slice())
}

// ---------------------------------------------------------------------
// Trimming files
// ---------------------------------------------------------------------

/// The lines of a text without their trailing whitespace.
pub open spec fn trimmed_lines(content: Seq<char>) -> Seq<Seq<char>> {
    spec_lines(content).map_values(|l: Seq<char>| spec_trim_end(l))
}

/// A text with the trailing whitespace of every line removed: the trimmed
/// lines joined by newlines, with a final newline when the text had one.
pub open spec fn spec_trim_content(content: Seq<char>) -> Seq<char> {
    if spec_ends_with(content, "\n"@) {
        spec_join(trimmed_lines(content).push(seq![]), "\n"@)
    } else {
        spec_join(trimmed_lines(content), "\n"@)
    }
}

/// The text of a file after `prep trim`, and whether it differs from the
/// text as it was.
pub fn trim_content(content: &str) -> (res: (String, bool))
    ensures
        res.0@ == spec_trim_content(content@),
        res.1 == (spec_trim_content(content@) != content@),
{
    let c = chars_of(content);
    let lines = split_lines(c.as_slice());
    let ghost lv = views(lines@);
    let mut out: Vec<Vec<char>> = Vec::new();
    let mut i: usize = 0;
    while i < lines.len()
        invariant
            i <= lines.len(),
            lv == views(lines@),
            views(out@) == lv.take(i as int).map_values(|l: Seq<char>| spec_trim_end(l)),
        decreases lines.len() - i,
    {
        let ghost before = views(out@);
        let t = trim_end(lines[i].as_slice());
        assert(lv[i as int] == lines@[i as int]@);
        out.push(t);
        assert(views(out@) =~= before.push(spec_trim_end(lv[i as int])));
        assert(lv.take(i + 1) == lv.take(i as int).push(lv[i as int]));
        i = i + 1;
        assert(views(out@) =~= lv.take(i as int).map_values(|l: Seq<char>| spec_trim_end(l)));
    }
    assert(lv.take(lines.len() as int) == lv);
    let sep = chars_of("\n");
    if ends_with(c.as_slice(), sep.as_slice()) {
        let ghost before = views(out@);
        out.push(Vec::new());
        assert(views(out@) =~= before.push(seq![]));
    }
    let joined = join(&out, sep.as_slice());
    let changed = !crate::text::same_chars(joined.as_slice(), c.as_slice());
    (string_of(joined.as_slice()), changed)
}


// ---------------------------------------------------------------------
// Release tags
// ---------------------------------------------------------------------

/// The first line that mentions `pat`.
pub open spec fn first_line_with(lines: Seq<Seq<char>>, pat: Seq<char>) -> Option<Seq<char>>
    decreases lines.len(),
{
    if lines.len() == 0 {
        None
    } else if spec_contains(lines[0], pat) {
        Some(lines[0])
    } else {
        first_line_with(lines.drop_first(), pat)
    }
}

/// The second `':'`-separated field of a line (what `split(':').nth(1)`
/// gives), if the line has a `':'`.
pub open spec fn second_field(line: Seq<char>) -> Option<Seq<char>> {
    match spec_find(line, ":"@) {
        Some(k) => {
            let rest = line.subrange(k + 1, line.len() as int);
            match spec_find(rest, ":"@) {
                Some(j) => Some(rest.subrange(0, j)),
                None => Some(rest),
            }
        },
        None => None,
    }
}

/// `s` without leading copies of `c`.
pub open spec fn strip_start(s: Seq<char>, c: char) -> Seq<char>
    decreases s.len(),
{
    if s.len() > 0 && s[0] == c {
        strip_start(s.drop_first(), c)
    } else {
        s
    }
}

/// `s` without trailing copies of `c`.
pub open spec fn strip_end(s: Seq<char>, c: char) -> Seq<char>
    decreases s.len(),
{
    if s.len() > 0 && s.last() == c {
        strip_end(s.drop_last(), c)
    } else {
        s
    }
}

/// `s` without leading or trailing copies of `c` (as `str::trim_matches`).
pub open spec fn strip_both(s: Seq<char>, c: char) -> Seq<char> {
    strip_start(strip_end(s, c), c)
}

/// The latest release tag in the GitHub API answer: on the first line that
/// mentions `"tag_name"`, the second `':'`-separated field, trimmed, then
/// stripped of quotes and then of commas.
pub open spec fn spec_latest_tag(answer: Seq<char>) -> Option<Seq<char>> {
    match first_line_with(spec_lines(answer), "\"tag_name\""@) {
        Some(l) => match second_field(l) {
            Some(f) => Some(strip_both(strip_both(spec_trim(f), '"'), ',')),
            None => None,
        },
        None => None,
    }
}

fn strip(s: &[char], c: char) -> (res: Vec<char>)
    ensures
        res@ == strip_both(s@, c),
{
    let mut e: usize = s.len();
    assert(s@.subrange(0, e as int) == s@);
    while e > 0 && s[e - 1] == c
        invariant
            e <= s.len(),
            strip_end(s@.subrange(0, e as int), c) == strip_end(s@, c),
        decreases e,
    {
        assert(s@.subrange(0, e as int).drop_last() == s@.subrange(0, e - 1));
        e = e - 1;
    }
    let t = sub_chars(s, 0, e);
    let mut b: usize = 0;
    assert(t@.subrange(0, t.len() as int) == t@);
    while b < t.len() && t[b] == c
        invariant
            b <= t.len(),
            strip_start(t@.subrange(b as int, t.len() as int), c) == strip_start(t@, c),
        decreases t.len() - b,
    {
        assert(t@.subrange(b as int, t.len() as int).drop_first() == t@.subrange(b + 1, t.len() as int));
        b = b + 1;
    }
    sub_chars(t.as_slice(), b, t.len())
}

fn second_field_of(line: &[char]) -> (res: Option<Vec<char>>)
    ensures
        match res {
            Some(f) => second_field(line@) == Some(f@),
            None => second_field(line@) is None,
        },
{
    let colon = chars_of(":");
    proof {
        reveal_strlit(":");
    }
    match find(line, colon.as_slice()) {
        Some(k) => {
            proof {
                lemma_find_from(line@, colon@, 0);
            }
            assert(k + 1 <= line.len());
            let rest = sub_chars(line, k + 1, line.len());
            match find(rest.as_slice(), colon.as_slice()) {
                Some(j) => {
                    proof {
                        lemma_find_from(rest@, colon@, 0);
                    }
                    Some(sub_chars(rest.as_slice(), 0, j))
                },
                None => Some(rest),
            }
        },
        None => None,
    }
}

/// The latest release tag named in the GitHub API answer, if any.
pub fn latest_tag(answer: &str) -> (res: Option<String>)
    ensures
        match res {
            Some(t) => spec_latest_tag(answer@) == Some(t@),
            None => spec_latest_tag(answer@) is None,
        },
{
    let lines = split_lines(chars_of(answer).as_slice());
    let ghost lv = views(lines@);
    let mut i: usize = 0;
    assert(lv.skip(0) == lv);
    while i < lines.len()
        invariant
            i <= lines.len(),
            lv == views(lines@),
            lv == spec_lines(answer@),
            first_line_with(lv.skip(i as int), "\"tag_name\""@) == first_line_with(
                lv,
                "\"tag_name\""@,
            ),
        decreases lines.len() - i,
    {
        assert(lv.skip(i as int)[0] == lines@[i as int]@);
        if contains_str(lines[i].as_slice(), "\"tag_name\"") {
            return match second_field_of(lines[i].as_slice()) {
                Some(f) => {
                    let t = trim(f.as_slice());
                    let q = strip(t.as_slice(), '"');
                    let r = strip(q.as_slice(), ',');
                    Some(string_of(r.as_slice()))
                },
                None => None,
            };
        }
        assert(lv.skip(i as int).drop_first() == lv.skip(i + 1));
        i = i + 1;
    }
    assert(lv.skip(lines.len() as int).len() == 0);
    None
}

// ---------------------------------------------------------------------
// Selecting files
// ---------------------------------------------------------------------

/// A path stays when it does not match the exclude pattern and matches the
/// pattern that paths must match (each only when given).
pub open spec fn path_kept(path: Seq<char>, exclude: Option<Seq<char>>, keep_only: Option<Seq<char>>) -> bool {
    (match exclude {
        Some(e) => !glob_matches(e, path),
        None => true,
    }) && (match keep_only {
        Some(i) => glob_matches(i, path),
        None => true,
    })
}

/// The positions of the first `count` paths that stay, in order.
pub open spec fn kept_positions(
    paths: Seq<Seq<char>>,
    exclude: Option<Seq<char>>,
    keep_only: Option<Seq<char>>,
    count: nat,
) -> Seq<nat>
    decreases count,
{
    if count == 0 {
        seq![]
    } else {
        kept_positions(paths, exclude, keep_only, (count - 1) as nat) + if path_kept(
            paths[count - 1],
            exclude,
            keep_only,
        ) {
            seq![(count - 1) as nat]
        } else {
            seq![]
        }
    }
}

/// Selecting paths: an invalid exclude pattern, then an invalid required
/// pattern, is the error; otherwise the positions of the paths that stay.
pub open spec fn spec_select_paths(
    paths: Seq<Seq<char>>,
    exclude: Option<Seq<char>>,
    keep_only: Option<Seq<char>>,
) -> Result<Seq<nat>, Seq<char>> {
    if exclude is Some && !glob_compiles(exclude->0) {
        Err(exclude->0)
    } else if keep_only is Some && !glob_compiles(keep_only->0) {
        Err(keep_only->0)
    } else {
        Ok(kept_positions(paths, exclude, keep_only, paths.len()))
    }
}

/// The view of an optional compiled pattern.
pub open spec fn glob_view(g: Option<CompiledGlob>) -> Option<Seq<char>> {
    match g {
        Some(p) => Some(p@),
        None => None,
    }
}

fn keep_path(path: &str, exclude: &Option<CompiledGlob>, keep_only: &Option<CompiledGlob>) -> (res: bool)
    ensures
        res == path_kept(path@, glob_view(*exclude), glob_view(*keep_only)),
{
    let out = match exclude {
        Some(e) => glob_is_match(e, path),
        None => false,
    };
    if out {
        return false;
    }
    match keep_only {
        Some(i) => glob_is_match(i, path),
        None => true,
    }
}

/// The positions of the paths (as the walk found them, in order) that the
/// exclude pattern and the required pattern keep, or the first invalid pattern.
pub fn select_paths(paths: &[String], exclude: Option<&str>, keep_only: Option<&str>) -> (res: Result<
    Vec<usize>,
    String,
>)
    ensures
        ({
            let ex = match exclude {
                Some(x) => Some(x@),
                None => None,
            };
            let inc = match keep_only {
                Some(x) => Some(x@),
                None => None,
            };
            match res {
                Ok(v) => spec_select_paths(key_views(paths@), ex, inc) == Ok::<Seq<nat>, Seq<char>>(
                    v@.map_values(|i: usize| i as nat),
                ),
                Err(p) => spec_select_paths(key_views(paths@), ex, inc) == Err::<Seq<nat>, Seq<char>>(p@),
            }
        }),
{
    let ghost ex = match exclude {
        Some(x) => Some(x@),
        None => None,
    };
    let ghost inc = match keep_only {
        Some(x) => Some(x@),
        None => None,
    };
    let ex_glob = match exclude {
        Some(x) => match glob_new(x) {
            Some(g) => Some(g),
            None => {
                return Err(x.to_owned());
            },
        },
        None => None,
    };
    let inc_glob = match keep_only {
        Some(x) => match glob_new(x) {
            Some(g) => Some(g),
            None => {
                return Err(x.to_owned());
            },
        },
        None => None,
    };
    let ghost kv = key_views(paths@);
    let mut out: Vec<usize> = Vec::new();
    let mut i: usize = 0;
    assert(out@.map_values(|i: usize| i as nat) =~= kept_positions(kv, ex, inc, 0));
    while i < paths.len()
        invariant
            i <= paths.len(),
            kv == key_views(paths@),
            glob_view(ex_glob) == ex,
            glob_view(inc_glob) == inc,
            out@.map_values(|i: usize| i as nat) == kept_positions(kv, ex, inc, i as nat),
        decreases paths.len() - i,
    {
        assert(kv[i as int] == paths@[i as int]@);
        if keep_path(paths[i].as_str(), &ex_glob, &inc_glob) {
            let ghost before = out@.map_values(|i: usize| i as nat);
            out.push(i);
            assert(out@.map_values(|i: usize| i as nat) =~= before.push(i as nat));
        }
        i = i + 1;
    }
    Ok(out)
}


// ---------------------------------------------------------------------
// Laws
// ---------------------------------------------------------------------

/// The trimmed lines hold no line feed and end with no whitespace (so with no
/// carriage return either).
proof fn lemma_trimmed_lines_clean(content: Seq<char>)
    ensures
        crate::text::clean_parts(trimmed_lines(content)),
        forall|i: int|
            0 <= i < trimmed_lines(content).len() ==> {
                let p = #[trigger] trimmed_lines(content)[i];
                !(p.len() > 0 && crate::text::spec_is_whitespace(p.last()))
            },
{
    let lines = spec_lines(content);
    let parts = trimmed_lines(content);
    crate::text::lemma_lines_no_newline(content);
    assert forall|i: int| 0 <= i < parts.len() implies {
        let p = #[trigger] parts[i];
        !p.contains('\n') && !(p.len() > 0 && p.last() == '\r') && !(p.len() > 0
            && crate::text::spec_is_whitespace(p.last()))
    } by {
        crate::text::lemma_trim_end_shape(lines[i]);
        let p = parts[i];
        if p.contains('\n') {
            let j = choose|j: int| 0 <= j < p.len() && p[j] == '\n';
            assert(lines[i][j] == '\n');
            assert(lines[i].contains('\n'));
        }
    }
}

/// The parts that `prep trim` joins: the trimmed lines, and an empty last
/// part when the text ended with a newline.
pub open spec fn trim_parts(content: Seq<char>) -> Seq<Seq<char>> {
    if spec_ends_with(content, "\n"@) {
        trimmed_lines(content).push(seq![])
    } else {
        trimmed_lines(content)
    }
}

/// After `prep trim`, no line ends in whitespace, so the audit finds no
/// trailing whitespace in it.
pub proof fn lemma_trim_leaves_no_trailing_whitespace(content: Seq<char>)
    ensures
        forall|i: int|
            0 <= i < spec_lines(spec_trim_content(content)).len() ==> {
                let l = #[trigger] spec_lines(spec_trim_content(content))[i];
                !(l.len() > 0 && crate::text::spec_is_whitespace(l.last()))
            },
        crate::checks::blanks_section(
            spec_lines(spec_trim_content(content)),
            spec_lines(spec_trim_content(content)).len(),
        ) == Seq::<Finding>::empty(),
{
    let parts = trim_parts(content);
    lemma_trimmed_lines_clean(content);
    let a = trimmed_lines(content);
    assert(crate::text::clean_parts(parts)) by {
        assert forall|i: int| 0 <= i < parts.len() implies {
            let p = #[trigger] parts[i];
            !p.contains('\n') && !(p.len() > 0 && p.last() == '\r')
        } by {
            if i < a.len() {
                assert(parts[i] == a[i]);
            }
        }
    }
    assert(spec_trim_content(content) == spec_join(parts, "\n"@));
    crate::text::lemma_lines_of_join(parts);
    let out = spec_lines(spec_trim_content(content));
    assert forall|i: int| 0 <= i < out.len() implies {
        let l = #[trigger] out[i];
        !(l.len() > 0 && crate::text::spec_is_whitespace(l.last()))
    } by {
        let j = choose|j: int| 0 <= j < parts.len() && parts[j] == out[i];
        if j < a.len() {
            assert(parts[j] == a[j]);
        }
    }
    assert forall|i: int| 0 <= i < out.len() implies !crate::checks::ends_in_blank(#[trigger] out[i]) by {
        let l = out[i];
        if l.len() > 0 {
            assert(!crate::text::spec_is_whitespace(l.last()));
        }
    }
    crate::checks::lemma_no_blank_findings(out, out.len());
}

/// Trimming a file twice is trimming it once.
pub proof fn lemma_trim_idempotent(content: Seq<char>)
    ensures
        spec_trim_content(spec_trim_content(content)) == spec_trim_content(content),
{
    reveal_strlit("\n");
    let a = trimmed_lines(content);
    let p = trim_parts(content);
    let t = spec_trim_content(content);
    lemma_trimmed_lines_clean(content);
    assert(t == spec_join(p, "\n"@));
    assert(crate::text::clean_parts(p)) by {
        assert forall|i: int| 0 <= i < p.len() implies {
            let x = #[trigger] p[i];
            !x.contains('\n') && !(x.len() > 0 && x.last() == '\r')
        } by {
            if i < a.len() {
                assert(p[i] == a[i]);
            }
        }
    }
    if p.len() == 0 {
        assert(t == Seq::<char>::empty());
        assert(spec_lines(t) =~= Seq::<Seq<char>>::empty());
        assert(trimmed_lines(t) =~= Seq::<Seq<char>>::empty());
        assert(!spec_ends_with(t, "\n"@));
        return;
    }
    crate::text::lemma_lines_of_join_clean(p);
    let l = spec_lines(t);
    // Every line of the trimmed text is one of the parts, already trimmed.
    assert(trimmed_lines(t) =~= l) by {
        assert forall|i: int| 0 <= i < l.len() implies spec_trim_end(l[i]) == l[i] by {
            assert(l[i] == p[i]);
            if i < a.len() {
                crate::text::lemma_trim_end_idempotent(spec_lines(content)[i]);
            }
        }
    }
    if p.last().len() > 0 {
        assert(l == p);
        assert(!spec_ends_with(t, "\n"@)) by {
            if p.len() == 1 {
                assert(t == p[0]);
            } else {
                assert(t == spec_join(p.drop_last(), "\n"@) + "\n"@ + p.last());
                assert(t.last() == p.last().last());
            }
            assert(t.last() == p.last().last());
            assert(p.last().contains(p.last().last()));
            if spec_ends_with(t, "\n"@) {
                assert(t.subrange(t.len() - 1, t.len() as int)[0] == t.last());
            }
        }
        assert(spec_trim_content(t) == spec_join(l, "\n"@));
    } else {
        assert(l == p.drop_last());
        if p.len() == 1 {
            assert(t == p[0]);
            assert(t.len() == 0);
            assert(!spec_ends_with(t, "\n"@));
            assert(spec_trim_content(t) == spec_join(l, "\n"@));
            assert(l.len() == 0);
        } else {
            assert(t == spec_join(p.drop_last(), "\n"@) + "\n"@ + p.last());
            assert(t.subrange(t.len() - 1, t.len() as int) =~= "\n"@);
            assert(spec_ends_with(t, "\n"@));
            assert(p.last() =~= Seq::<char>::empty());
            assert(l.push(seq![]) =~= p);
        }
    }
}

proof fn lemma_hex_len(data: Seq<u8>)
    ensures
        spec_hex(data).len() == 2 * data.len(),
    decreases data.len(),
{
    if data.len() > 0 {
        lemma_hex_len(data.drop_first());
    }
}

/// Every manifest digest is 64 hexadecimal characters long.
pub proof fn lemma_digest_length(data: Seq<u8>)
    requires
        sha256_digest(data).len() == 32,
    ensures
        spec_hex(sha256_digest(data)).len() == 64,
{
    lemma_hex_len(sha256_digest(data));
}

/// Whether a finding has severity `sev`.
pub open spec fn has_severity(sev: Severity) -> spec_fn(Finding) -> bool {
    |f: Finding| f.0 == sev
}

/// The number of findings of a severity in a file is how many of its
/// findings have that severity: each such finding counts one, and no other
/// counts.
pub proof fn lemma_count_sev_counts_each(fs: Seq<Finding>, sev: Severity)
    ensures
        count_sev(fs, sev) == fs.filter(has_severity(sev)).len(),
    decreases fs.len(),
{
    reveal(Seq::filter);
    if fs.len() > 0 {
        lemma_count_sev_counts_each(fs.drop_last(), sev);
    }
}

/// The totals over all files count every finding of each file: adding a
/// file adds the number of its findings with that severity.
pub proof fn lemma_total_sev_adds_file(checked: Seq<Seq<Finding>>, fs: Seq<Finding>, sev: Severity)
    ensures
        total_sev(checked.push(fs), sev) == total_sev(checked, sev) + fs.filter(has_severity(sev)).len(),
        total_sev(seq![], sev) == 0,
{
    assert(checked.push(fs).drop_last() =~= checked);
    lemma_count_sev_counts_each(fs, sev);
}

} // verus!

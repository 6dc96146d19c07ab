//! The `.prepignore` and `.preprc` files: creating them, showing and
//! setting configuration, and managing ignore patterns.

use vstd::prelude::*;
use crate::bridge::{glob_compiles, glob_is_match, glob_matches, glob_new, string_of};
use crate::text::{
    chars_of, ends_with, find, join, lemma_find_from, push_chars, push_str, spec_ends_with, spec_find, spec_join,
    spec_lines, spec_starts_with, spec_trim, split_lines, starts_with_str, sub_chars, trim, views,
};

verus! {

/// The ignore-pattern subcommands.
pub enum IgnoreAction {
    /// Add a pattern to `.prepignore`.
    Add { pattern: String },
    /// Remove a pattern from `.prepignore`.
    Remove { pattern: String },
    /// List the ignored patterns.
    List,
    /// Check whether a file is ignored.
    Check { file: String },
    /// Reset `.prepignore` to the default patterns.
    Reset,
}

/// One thing to do for a configuration command, in order.
pub enum ConfigStep {
    /// Print a line.
    Print(String),
    /// Write a file with the given content.
    Write { path: String, content: String },
    /// Open a file in the user's editor.
    Edit { path: String },
}

/// A configuration step as a mathematical value.
pub enum StepView {
    Print(Seq<char>),
    Write(Seq<char>, Seq<char>),
    Edit(Seq<char>),
}

impl View for ConfigStep {
    type V = StepView;

    open spec fn view(&self) -> StepView {
        match self {
            ConfigStep::Print(m) => StepView::Print(m@),
            ConfigStep::Write { path, content } => StepView::Write(path@, content@),
            ConfigStep::Edit { path } => StepView::Edit(path@),
        }
    }
}

/// The views of a list of steps.
pub open spec fn step_views(v: Seq<ConfigStep>) -> Seq<StepView> {
    v.map_values(|s: ConfigStep| s@)
}

fn push_step(steps: &mut Vec<ConfigStep>, s: ConfigStep)
    ensures
        step_views(final(steps)@) == step_views(old(steps)@).push(s@),
{
    let ghost v = s@;
    steps.push(s);
    assert(step_views(steps@) =~= step_views(old(steps)@).push(v));
}

fn print_step(m: &str) -> (res: ConfigStep)
    ensures
        res@ == StepView::Print(m@),
{
    ConfigStep::Print(m.to_owned())
}

/// The default `.prepignore` written by `prep init`.
pub open spec fn default_ignore() -> Seq<char> {
    "# .prepignore - files to ignore when scanning\n*.log\n*.tmp\n*.cache\n*.pyc\n__pycache__/\nnode_modules/\ntarget/\nbuild/\ndist/\n*.lock\n"@
}

/// The default `.preprc` written by `prep init`.
pub open spec fn default_config() -> Seq<char> {
    "# prep configuration\n# Add custom rules here\n[rules]\n\"TODO: fix\" = \"warning\"\n\"console.log\" = \"warning\"\n"@
}

/// The steps of `prep init`: each file is written (and announced) unless it
/// exists and `force` is off, in which case that is said instead.
pub open spec fn spec_init_config(force: bool, ignore_exists: bool, config_exists: bool) -> Seq<StepView> {
    (if ignore_exists && !force {
        seq![StepView::Print(".prepignore already exists. Use --force to overwrite."@)]
    } else {
        seq![StepView::Write(".prepignore"@, default_ignore()), StepView::Print("Created .prepignore"@)]
    }) + (if config_exists && !force {
        seq![StepView::Print(".preprc already exists. Use --force to overwrite."@)]
    } else {
        seq![StepView::Write(".preprc"@, default_config()), StepView::Print("Created .preprc"@)]
    })
}

/// The steps of `prep init`, given which of the two files exist.
pub fn init_config(force: bool, ignore_exists: bool, config_exists: bool) -> (res: Vec<ConfigStep>)
    ensures
        step_views(res@) == spec_init_config(force, ignore_exists, config_exists),
{
    let mut steps: Vec<ConfigStep> = Vec::new();
    if ignore_exists && !force {
        push_step(&mut steps, print_step(".prepignore already exists. Use --force to overwrite."));
    } else {
        push_step(
            &mut steps,
            ConfigStep::Write {
                path: ".prepignore".to_owned(),
                content: "# .prepignore - files to ignore when scanning\n*.log\n*.tmp\n*.cache\n*.pyc\n__pycache__/\nnode_modules/\ntarget/\nbuild/\ndist/\n*.lock\n".to_owned(),
            },
        );
        push_step(&mut steps, print_step("Created .prepignore"));
    }
    if config_exists && !force {
        push_step(&mut steps, print_step(".preprc already exists. Use --force to overwrite."));
    } else {
        push_step(
            &mut steps,
            ConfigStep::Write {
                path: ".preprc".to_owned(),
                content: "# prep configuration\n# Add custom rules here\n[rules]\n\"TODO: fix\" = \"warning\"\n\"console.log\" = \"warning\"\n".to_owned(),
            },
        );
        push_step(&mut steps, print_step("Created .preprc"));
    }
    assert(step_views(steps@) =~= spec_init_config(force, ignore_exists, config_exists));
    steps
}

/// The message for `prep config --set <key=value>`: the text before and after
/// the first `=`, or a complaint when there is none.
pub open spec fn spec_set_message(key_value: Seq<char>) -> Seq<char> {
    match spec_find(key_value, "="@) {
        Some(k) => "Setting "@ + key_value.subrange(0, k) + " = "@ + key_value.subrange(
            k + 1,
            key_value.len() as int,
        ) + " (not yet implemented)"@,
        None => "Invalid format. Use key=value"@,
    }
}

/// The message for `prep config --set <key=value>`.
pub fn set_message(key_value: &str) -> (res: String)
    ensures
        res@ == spec_set_message(key_value@),
{
    let kv = chars_of(key_value);
    let eq = chars_of("=");
    match find(kv.as_slice(), eq.as_slice()) {
        Some(k) => {
            proof {
                reveal_strlit("=");
                lemma_find_from(kv@, eq@, 0);
            }
            assert(eq@.len() == 1);
            assert(crate::text::occurs_at(kv@, eq@, k as int));
            assert(k + 1 <= kv@.len());
            assert(k + 1 <= kv.len());
            let mut m = chars_of("Setting ");
            let key = sub_chars(kv.as_slice(), 0, k);
            let value = sub_chars(kv.as_slice(), k + 1, kv.len());
            crate::text::push_chars(&mut m, key.as_slice());
            push_str(&mut m, " = ");
            crate::text::push_chars(&mut m, value.as_slice());
            push_str(&mut m, " (not yet implemented)");
            string_of(m.as_slice())
        },
        None => "Invalid format. Use key=value".to_owned(),
    }
}

/// The steps of `prep config`: show the file, open it in the editor, and set
/// a value, each when asked, in that order. `config` is the content of
/// `.preprc`, or `None` when there is no such file.
pub open spec fn spec_manage_config(
    show: bool,
    edit: bool,
    set: Option<Seq<char>>,
    config: Option<Seq<char>>,
) -> Seq<StepView> {
    let missing = StepView::Print("No configuration file found. Run `prep init` to create one."@);
    (if show {
        match config {
            Some(c) => seq![StepView::Print(c)],
            None => seq![missing],
        }
    } else {
        seq![]
    }) + (if edit {
        match config {
            Some(_) => seq![StepView::Edit(".preprc"@)],
            None => seq![missing],
        }
    } else {
        seq![]
    }) + match set {
        Some(kv) => seq![StepView::Print(spec_set_message(kv))],
        None => seq![],
    }
}

/// The steps of `prep config`.
pub fn manage_config(show: bool, edit: bool, set: Option<&str>, config: Option<&str>) -> (res: Vec<
    ConfigStep,
>)
    ensures
        step_views(res@) == spec_manage_config(
            show,
            edit,
            match set {
                Some(s) => Some(s@),
                None => None,
            },
            match config {
                Some(c) => Some(c@),
                None => None,
            },
        ),
{
    let mut steps: Vec<ConfigStep> = Vec::new();
    let missing = "No configuration file found. Run `prep init` to create one.";
    if show {
        match config {
            Some(c) => push_step(&mut steps, print_step(c)),
            None => push_step(&mut steps, print_step(missing)),
        }
    }
    let ghost after_show = step_views(steps@);
    if edit {
        match config {
            Some(_) => push_step(&mut steps, ConfigStep::Edit { path: ".preprc".to_owned() }),
            None => push_step(&mut steps, print_step(missing)),
        }
    }
    let ghost after_edit = step_views(steps@);
    match set {
        Some(kv) => push_step(&mut steps, ConfigStep::Print(set_message(kv))),
        None => {},
    }
    assert(step_views(steps@) =~= spec_manage_config(
        show,
        edit,
        match set {
            Some(s) => Some(s@),
            None => None,
        },
        match config {
            Some(c) => Some(c@),
            None => None,
        },
    ));
    steps
}


// ---------------------------------------------------------------------
// Ignore patterns
// ---------------------------------------------------------------------

/// What an ignore command comes to: the new content of `.prepignore`, if it
/// is to be written, and the message to print.
pub struct IgnoreOutcome {
    pub write: Option<String>,
    pub message: String,
}

/// A line that `Remove` keeps: its trimmed text is not empty and is not the
/// pattern.
pub open spec fn keeps_line(line: Seq<char>, pattern: Seq<char>) -> bool {
    spec_trim(line) != pattern && spec_trim(line).len() > 0
}

/// The lines that `Remove` keeps, in order.
pub open spec fn kept_lines(lines: Seq<Seq<char>>, pattern: Seq<char>) -> Seq<Seq<char>>
    decreases lines.len(),
{
    if lines.len() == 0 {
        seq![]
    } else {
        kept_lines(lines.drop_last(), pattern) + if keeps_line(lines.last(), pattern) {
            seq![lines.last()]
        } else {
            seq![]
        }
    }
}

/// A glob matches a text (a pattern that is not a valid glob matches
/// nothing).
pub open spec fn glob_hit(pattern: Seq<char>, text: Seq<char>) -> bool {
    glob_compiles(pattern) && glob_matches(pattern, text)
}

/// An ignore pattern covers a path, as in `.gitignore`: read as a glob it
/// matches the path, or matches it at any depth (with `**/` in front); and a
/// directory pattern (one ending with `/`) covers everything below such a
/// directory (with `**/` in front and `**` behind).
pub open spec fn pattern_covers(pattern: Seq<char>, file: Seq<char>) -> bool {
    glob_hit(pattern, file) || glob_hit("**/"@ + pattern, file) || (spec_ends_with(pattern, "/"@)
        && glob_hit("**/"@ + pattern + "**"@, file))
}

/// A line that makes `file` ignored: its trimmed text is not empty, is not a
/// comment, and is a pattern that covers the file.
pub open spec fn line_ignores(line: Seq<char>, file: Seq<char>) -> bool {
    let t = spec_trim(line);
    t.len() > 0 && !spec_starts_with(t, "#"@) && pattern_covers(t, file)
}

/// Some line of the content makes `file` ignored.
pub open spec fn spec_is_ignored(content: Seq<char>, file: Seq<char>) -> bool {
    exists|i: int| 0 <= i < spec_lines(content).len() && line_ignores(#[trigger] spec_lines(content)[i], file)
}

/// The default patterns that `Reset` writes.
pub open spec fn reset_ignore() -> Seq<char> {
    "# .prepignore\n*.log\n*.tmp\n*.cache\nnode_modules/\ntarget/\nbuild/\n"@
}

/// What an ignore command does, given the content of `.prepignore` (`None`
/// when there is no such file): the new content to write, if any, and the
/// message.
pub open spec fn spec_manage_ignore(action: IgnoreAction, current: Option<Seq<char>>) -> (
    Option<Seq<char>>,
    Seq<char>,
) {
    let missing = "No .prepignore file found."@;
    match action {
        IgnoreAction::Add { pattern } => {
            let c = match current {
                Some(c) => c,
                None => seq![],
            };
            (Some(c + "\n"@ + pattern@), "Added pattern: "@ + pattern@)
        },
        IgnoreAction::Remove { pattern } => match current {
            Some(c) => (
                Some(spec_join(kept_lines(spec_lines(c), pattern@), "\n"@)),
                "Removed pattern: "@ + pattern@,
            ),
            None => (None, missing),
        },
        IgnoreAction::List => match current {
            Some(c) => (None, "Current ignored patterns:\n"@ + c),
            None => (None, missing),
        },
        IgnoreAction::Check { file } => match current {
            Some(c) => (
                None,
                file@ + if spec_is_ignored(c, file@) {
                    " is ignored"@
                } else {
                    " is NOT ignored"@
                },
            ),
            None => (None, missing),
        },
        IgnoreAction::Reset => (Some(reset_ignore()), "Reset .prepignore to defaults."@),
    }
}

fn kept(lines: &Vec<Vec<char>>, pattern: &str) -> (res: Vec<Vec<char>>)
    ensures
        views(res@) == kept_lines(views(lines@), pattern@),
{
    let ghost lv = views(lines@);
    let p = chars_of(pattern);
    let mut out: Vec<Vec<char>> = Vec::new();
    let mut i: usize = 0;
    assert(views(out@) =~= kept_lines(lv.take(0), pattern@));
    while i < lines.len()
        invariant
            i <= lines.len(),
            lv == views(lines@),
            p@ == pattern@,
            views(out@) == kept_lines(lv.take(i as int), pattern@),
        decreases lines.len() - i,
    {
        assert(lv.take(i + 1).drop_last() == lv.take(i as int));
        assert(lv.take(i + 1).last() == lines@[i as int]@);
        let t = trim(lines[i].as_slice());
        if !crate::text::same_chars(t.as_slice(), p.as_slice()) && t.len() > 0 {
            let ghost before = views(out@);
            out.push(sub_chars(lines[i].as_slice(), 0, lines[i].len()));
            assert(lines@[i as int]@.subrange(0, lines@[i as int]@.len() as int) == lines@[i as int]@);
            assert(views(out@) =~= before.push(lines@[i as int]@));
        }
        i = i + 1;
    }
    assert(lv.take(lines.len() as int) == lv);
    out
}

fn glob_hits(pattern: &[char], file: &str) -> (res: bool)
    ensures
        res == glob_hit(pattern@, file@),
{
    let text = string_of(pattern);
    match glob_new(text.as_str()) {
        Some(g) => glob_is_match(&g, file),
        None => false,
    }
}

fn covers(pattern: &[char], file: &str) -> (res: bool)
    ensures
        res == pattern_covers(pattern@, file@),
{
    if glob_hits(pattern, file) {
        return true;
    }
    let mut deep = chars_of("**/");
    push_chars(&mut deep, pattern);
    if glob_hits(deep.as_slice(), file) {
        return true;
    }
    let slash = chars_of("/");
    if ends_with(pattern, slash.as_slice()) {
        push_str(&mut deep, "**");
        glob_hits(deep.as_slice(), file)
    } else {
        false
    }
}

fn is_ignored(content: &str, file: &str) -> (res: bool)
    ensures
        res == spec_is_ignored(content@, file@),
{
    let lines = split_lines(chars_of(content).as_slice());
    let ghost lv = views(lines@);
    let f = chars_of(file);
    let mut i: usize = 0;
    while i < lines.len()
        invariant
            i <= lines.len(),
            lv == views(lines@),
            lv == spec_lines(content@),
            f@ == file@,
            forall|j: int| 0 <= j < i ==> !line_ignores(#[trigger] lv[j], file@),
        decreases lines.len() - i,
    {
        let t = trim(lines[i].as_slice());
        assert(lv[i as int] == lines@[i as int]@);
        if t.len() > 0 && !starts_with_str(t.as_slice(), "#") && covers(t.as_slice(), file) {
            assert(line_ignores(lv[i as int], file@));
            return true;
        }
        i = i + 1;
    }
    false
}

/// Works out an ignore command, given the content of `.prepignore` (`None`
/// when there is no such file).
pub fn manage_ignore(action: &IgnoreAction, current: Option<&str>) -> (res: IgnoreOutcome)
    ensures
        ({
            let (w, m) = spec_manage_ignore(
                *action,
                match current {
                    Some(c) => Some(c@),
                    None => None,
                },
            );
            &&& match res.write {
                Some(x) => w == Some(x@),
                None => w is None,
            }
            &&& res.message@ == m
        }),
{
    let missing = "No .prepignore file found.";
    match action {
        IgnoreAction::Add { pattern } => {
            let mut c = match current {
                Some(c) => chars_of(c),
                None => Vec::new(),
            };
            push_str(&mut c, "\n");
            push_str(&mut c, pattern.as_str());
            let mut m = chars_of("Added pattern: ");
            push_str(&mut m, pattern.as_str());
            IgnoreOutcome { write: Some(string_of(c.as_slice())), message: string_of(m.as_slice()) }
        },
        IgnoreAction::Remove { pattern } => match current {
            Some(c) => {
                let lines = split_lines(chars_of(c).as_slice());
                let keep = kept(&lines, pattern.as_str());
                let sep = chars_of("\n");
                let text = join(&keep, sep.as_slice());
                let mut m = chars_of("Removed pattern: ");
                push_str(&mut m, pattern.as_str());
                IgnoreOutcome {
                    write: Some(string_of(text.as_slice())),
                    message: string_of(m.as_slice()),
                }
            },
            None => IgnoreOutcome { write: None, message: missing.to_owned() },
        },
        IgnoreAction::List => match current {
            Some(c) => {
                let mut m = chars_of("Current ignored patterns:\n");
                push_str(&mut m, c);
                IgnoreOutcome { write: None, message: string_of(m.as_slice()) }
            },
            None => IgnoreOutcome { write: None, message: missing.to_owned() },
        },
        IgnoreAction::Check { file } => match current {
            Some(c) => {
                let mut m = chars_of(file.as_str());
                if is_ignored(c, file.as_str()) {
                    push_str(&mut m, " is ignored");
                } else {
                    push_str(&mut m, " is NOT ignored");
                }
                IgnoreOutcome { write: None, message: string_of(m.as_slice()) }
            },
            None => IgnoreOutcome { write: None, message: missing.to_owned() },
        },
        IgnoreAction::Reset => IgnoreOutcome {
            write: Some("# .prepignore\n*.log\n*.tmp\n*.cache\nnode_modules/\ntarget/\nbuild/\n".to_owned()),
            message: "Reset .prepignore to defaults.".to_owned(),
        },
    }
}


/// A pattern added to `.prepignore` makes a file ignored when its trimmed
/// text is a real pattern (not empty, not a comment) that covers the file:
/// adding it and then checking the file says so.
pub proof fn lemma_added_pattern_is_ignored(current: Option<Seq<char>>, pattern: String, file: String)
    requires
        !pattern@.contains('\n'),
        spec_trim(pattern@).len() > 0,
        !spec_starts_with(spec_trim(pattern@), "#"@),
        pattern_covers(spec_trim(pattern@), file@),
    ensures
        ({
            let written = spec_manage_ignore(IgnoreAction::Add { pattern }, current).0;
            &&& written is Some
            &&& spec_is_ignored(written->0, file@)
            &&& spec_manage_ignore(IgnoreAction::Check { file }, written).1 == file@ + " is ignored"@
        }),
{
    let c = match current {
        Some(c) => c,
        None => seq![],
    };
    let w = c + "\n"@ + pattern@;
    assert(pattern@.len() > 0) by {
        if pattern@.len() == 0 {
            assert(spec_trim(pattern@) == pattern@);
        }
    }
    crate::text::lemma_last_line(c, pattern@);
    let lines = spec_lines(w);
    let j = choose|j: int| 0 <= j < lines.len() && lines[j] == pattern@;
    assert(line_ignores(lines[j], file@));
    assert(spec_is_ignored(w, file@));
}


proof fn lemma_kept_lines(lines: Seq<Seq<char>>, pattern: Seq<char>)
    ensures
        forall|i: int|
            0 <= i < kept_lines(lines, pattern).len() ==> keeps_line(
                #[trigger] kept_lines(lines, pattern)[i],
                pattern,
            ) && lines.contains(kept_lines(lines, pattern)[i]),
    decreases lines.len(),
{
    if lines.len() > 0 {
        lemma_kept_lines(lines.drop_last(), pattern);
        let r = kept_lines(lines.drop_last(), pattern);
        let k = kept_lines(lines, pattern);
        assert forall|i: int| 0 <= i < k.len() implies keeps_line(#[trigger] k[i], pattern)
            && lines.contains(k[i]) by {
            if i < r.len() {
                assert(k[i] == r[i]);
                let j = choose|j: int| 0 <= j < lines.drop_last().len() && lines.drop_last()[j] == r[i];
                assert(lines[j] == r[i]);
            } else {
                assert(k[i] == lines.last());
                assert(lines[lines.len() - 1] == lines.last());
            }
        }
    }
}

/// After removing a pattern, no line of `.prepignore` is that pattern or
/// blank once trimmed (for a file none of whose lines ends with a carriage
/// return).
pub proof fn lemma_removed_pattern_is_gone(content: Seq<char>, pattern: String)
    requires
        crate::checks::no_cr_line_ends(content),
    ensures
        ({
            let written = spec_manage_ignore(IgnoreAction::Remove { pattern }, Some(content)).0;
            &&& written is Some
            &&& forall|i: int|
                0 <= i < spec_lines(written->0).len() ==> keeps_line(
                    #[trigger] spec_lines(written->0)[i],
                    pattern@,
                )
        }),
{
    let lines = spec_lines(content);
    let kept = kept_lines(lines, pattern@);
    lemma_kept_lines(lines, pattern@);
    crate::text::lemma_lines_no_newline(content);
    assert(crate::text::clean_parts(kept)) by {
        assert forall|i: int| 0 <= i < kept.len() implies {
            let p = #[trigger] kept[i];
            !p.contains('\n') && !(p.len() > 0 && p.last() == '\r')
        } by {
            let j = choose|j: int| 0 <= j < lines.len() && lines[j] == kept[i];
            assert(lines[j] == kept[i]);
        }
    }
    crate::text::lemma_lines_of_join(kept);
    let w = spec_join(kept, "\n"@);
    assert forall|i: int| 0 <= i < spec_lines(w).len() implies keeps_line(
        #[trigger] spec_lines(w)[i],
        pattern@,
    ) by {
        let j = choose|j: int| 0 <= j < kept.len() && kept[j] == spec_lines(w)[i];
        assert(keeps_line(kept[j], pattern@));
    }
}

/// Whether a line stays when `pattern` is removed: its trimmed text is
/// neither empty nor the pattern.
pub open spec fn stays_after_removing(pattern: Seq<char>) -> spec_fn(Seq<char>) -> bool {
    |line: Seq<char>| spec_trim(line) != pattern && spec_trim(line).len() > 0
}

proof fn lemma_kept_lines_filter(lines: Seq<Seq<char>>, pattern: Seq<char>)
    ensures
        kept_lines(lines, pattern) == lines.filter(stays_after_removing(pattern)),
    decreases lines.len(),
{
    reveal(Seq::filter);
    if lines.len() > 0 {
        lemma_kept_lines_filter(lines.drop_last(), pattern);
    }
}

/// Removing a pattern writes the lines of `.prepignore` whose trimmed text is
/// neither empty nor the pattern, every one of them (comments included), in
/// order, joined by line feeds; and it says so.
pub proof fn lemma_remove_keeps_other_lines(content: Seq<char>, pattern: String)
    ensures
        spec_manage_ignore(IgnoreAction::Remove { pattern }, Some(content)) == (
            Some(spec_join(spec_lines(content).filter(stays_after_removing(pattern@)), "\n"@)),
            "Removed pattern: "@ + pattern@,
        ),
{
    lemma_kept_lines_filter(spec_lines(content), pattern@);
}

/// After removing a pattern from a `.prepignore` none of whose lines ends
/// with a carriage return, every line that was neither blank nor the pattern
/// (a comment too) is still a line of the file.
pub proof fn lemma_remove_keeps_every_other_line(content: Seq<char>, pattern: String, i: int)
    requires
        crate::checks::no_cr_line_ends(content),
        0 <= i < spec_lines(content).len(),
        spec_trim(spec_lines(content)[i]).len() > 0,
        spec_trim(spec_lines(content)[i]) != pattern@,
    ensures
        spec_lines(spec_manage_ignore(IgnoreAction::Remove { pattern }, Some(content)).0->0).contains(
            spec_lines(content)[i],
        ),
{
    let lines = spec_lines(content);
    let kept = lines.filter(stays_after_removing(pattern@));
    lemma_kept_lines_filter(lines, pattern@);
    lemma_kept_lines(lines, pattern@);
    crate::text::lemma_lines_no_newline(content);
    let x = lines[i];
    assert(stays_after_removing(pattern@)(x));
    lines.lemma_filter_contains(stays_after_removing(pattern@), i);
    assert(kept.contains(x));
    assert(crate::text::clean_parts(kept)) by {
        assert forall|j: int| 0 <= j < kept.len() implies {
            let p = #[trigger] kept[j];
            !p.contains('\n') && !(p.len() > 0 && p.last() == '\r')
        } by {
            let m = choose|m: int| 0 <= m < lines.len() && lines[m] == kept[j];
            assert(lines[m] == kept[j]);
        }
    }
    assert(kept.len() > 0);
    let last = kept.last();
    assert(keeps_line(kept[kept.len() - 1], pattern@));
    assert(last.len() > 0) by {
        if last.len() == 0 {
            assert(spec_trim(last).len() == 0);
        }
    }
    crate::text::lemma_lines_of_join_clean(kept);
}

} // verus!

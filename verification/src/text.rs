//! Character-level text operations with their specifications.

use vstd::prelude::*;

verus! {

/// The characters that carry the Unicode `White_Space` property
/// (the set that `char::is_whitespace` and `str::trim` use).
pub open spec fn spec_is_whitespace(c: char) -> bool {
    ||| ('\u{9}' <= c && c <= '\u{d}')
    ||| c == ' '
    ||| c == '\u{85}'
    ||| c == '\u{a0}'
    ||| c == '\u{1680}'
    ||| ('\u{2000}' <= c && c <= '\u{200a}')
    ||| c == '\u{2028}'
    ||| c == '\u{2029}'
    ||| c == '\u{202f}'
    ||| c == '\u{205f}'
    ||| c == '\u{3000}'
}

/// Whether `c` is a Unicode whitespace character.
pub fn is_whitespace(c: char) -> (res: bool)
    ensures
        res == spec_is_whitespace(c),
{
    ('\u{9}' <= c && c <= '\u{d}') || c == ' ' || c == '\u{85}' || c == '\u{a0}' || c == '\u{1680}'
        || ('\u{2000}' <= c && c <= '\u{200a}') || c == '\u{2028}' || c == '\u{2029}' || c
        == '\u{202f}' || c == '\u{205f}' || c == '\u{3000}'
}

/// The characters of a string slice, in order.
pub fn chars_of(s: &str) -> (res: Vec<char>)
    ensures
        res@ == s@,
{
    let mut res: Vec<char> = Vec::new();
    for c in it: s.chars()
        invariant
            res@ == it.seq().take(it.index() as int),
            it.seq() == s@,
    {
        res.push(c);
    }
    res
}


/// Appends the characters of `t` to `v`.
pub fn push_chars(v: &mut Vec<char>, t: &[char])
    ensures
        final(v)@ == old(v)@ + t@,
{
    let mut i: usize = 0;
    while i < t.len()
        invariant
            i <= t.len(),
            v@ == old(v)@ + t@.subrange(0, i as int),
        decreases t.len() - i,
    {
        v.push(t[i]);
        i = i + 1;
        assert(v@ == old(v)@ + t@.subrange(0, i as int));
    }
    assert(t@.subrange(0, t.len() as int) == t@);
}

/// Appends the characters of the string slice `t` to `v`.
pub fn push_str(v: &mut Vec<char>, t: &str)
    ensures
        final(v)@ == old(v)@ + t@,
{
    let c = chars_of(t);
    push_chars(v, c.as_slice());
}

/// The characters `s[from..to]` as a new vector.
pub fn sub_chars(s: &[char], from: usize, to: usize) -> (res: Vec<char>)
    requires
        from <= to <= s.len(),
    ensures
        res@ == s@.subrange(from as int, to as int),
{
    vstd::slice::slice_to_vec(vstd::slice::slice_subrange(s, from, to))
}

// ---------------------------------------------------------------------
// Prefixes, suffixes and substrings
// ---------------------------------------------------------------------

/// `s` begins with `p`.
pub open spec fn spec_starts_with(s: Seq<char>, p: Seq<char>) -> bool {
    p.len() <= s.len() && s.subrange(0, p.len() as int) == p
}

/// `s` ends with `p`.
pub open spec fn spec_ends_with(s: Seq<char>, p: Seq<char>) -> bool {
    p.len() <= s.len() && s.subrange(s.len() - p.len(), s.len() as int) == p
}

/// `p` occurs in `s` at position `i`.
pub open spec fn occurs_at(s: Seq<char>, p: Seq<char>, i: int) -> bool {
    0 <= i && i + p.len() <= s.len() && s.subrange(i, i + p.len()) == p
}

/// `p` occurs somewhere in `s` (the empty pattern occurs in every string).
pub open spec fn spec_contains(s: Seq<char>, p: Seq<char>) -> bool {
    exists|i: int| occurs_at(s, p, i)
}

/// Whether `p` occurs in `s` at position `i`.
pub fn matches_at(s: &[char], p: &[char], i: usize) -> (res: bool)
    ensures
        res == occurs_at(s@, p@, i as int),
{
    if i > s.len() || p.len() > s.len() - i {
        return false;
    }
    let mut k: usize = 0;
    while k < p.len()
        invariant
            i + p.len() <= s.len(),
            k <= p.len(),
            forall|j: int| 0 <= j < k ==> s@[i + j] == p@[j],
        decreases p.len() - k,
    {
        if s[i + k] != p[k] {
            assert(s@.subrange(i as int, i + p.len())[k as int] != p@[k as int]);
            return false;
        }
        k = k + 1;
    }
    assert(s@.subrange(i as int, i + p.len()) =~= p@);
    true
}

/// Whether `s` begins with `p`.
pub fn starts_with(s: &[char], p: &[char]) -> (res: bool)
    ensures
        res == spec_starts_with(s@, p@),
{
    matches_at(s, p, 0)
}

/// Whether `s` begins with the string slice `p`.
pub fn starts_with_str(s: &[char], p: &str) -> (res: bool)
    ensures
        res == spec_starts_with(s@, p@),
{
    let pc = chars_of(p);
    starts_with(s, pc.as_slice())
}

/// Whether `s` ends with `p`.
pub fn ends_with(s: &[char], p: &[char]) -> (res: bool)
    ensures
        res == spec_ends_with(s@, p@),
{
    if p.len() > s.len() {
        return false;
    }
    matches_at(s, p, s.len() - p.len())
}

/// Whether `p` occurs in `s`.
pub fn contains(s: &[char], p: &[char]) -> (res: bool)
    ensures
        res == spec_contains(s@, p@),
{
    if p.len() > s.len() {
        assert forall|i: int| !occurs_at(s@, p@, i) by {}
        return false;
    }
    let last = s.len() - p.len();
    let mut i: usize = 0;
    loop
        invariant
            p.len() <= s.len(),
            last == s.len() - p.len(),
            i <= last,
            forall|j: int| 0 <= j < i ==> !occurs_at(s@, p@, j),
        ensures
            forall|j: int| 0 <= j <= last ==> !occurs_at(s@, p@, j),
        decreases last - i,
    {
        if matches_at(s, p, i) {
            return true;
        }
        if i == last {
            break;
        }
        i = i + 1;
    }
    assert forall|j: int| !occurs_at(s@, p@, j) by {
        if 0 <= j && j + p.len() <= s.len() {
            assert(j <= last);
        }
    }
    false
}

/// Whether the string slice `p` occurs in `s`.
pub fn contains_str(s: &[char], p: &str) -> (res: bool)
    ensures
        res == spec_contains(s@, p@),
{
    let pc = chars_of(p);
    contains(s, pc.as_slice())
}



// ---------------------------------------------------------------------
// Trimming
// ---------------------------------------------------------------------

/// `s` without its trailing whitespace (as `str::trim_end`).
pub open spec fn spec_trim_end(s: Seq<char>) -> Seq<char>
    decreases s.len(),
{
    if s.len() > 0 && spec_is_whitespace(s.last()) {
        spec_trim_end(s.drop_last())
    } else {
        s
    }
}

/// `s` without its leading whitespace (as `str::trim_start`).
pub open spec fn spec_trim_start(s: Seq<char>) -> Seq<char>
    decreases s.len(),
{
    if s.len() > 0 && spec_is_whitespace(s[0]) {
        spec_trim_start(s.drop_first())
    } else {
        s
    }
}

/// `s` without leading and trailing whitespace (as `str::trim`).
pub open spec fn spec_trim(s: Seq<char>) -> Seq<char> {
    spec_trim_start(spec_trim_end(s))
}

/// The trimmed end is a prefix of the string, without trailing whitespace.
pub proof fn lemma_trim_end_shape(s: Seq<char>)
    ensures
        spec_trim_end(s).len() <= s.len(),
        spec_trim_end(s) == s.subrange(0, spec_trim_end(s).len() as int),
        spec_trim_end(s).len() > 0 ==> !spec_is_whitespace(spec_trim_end(s).last()),
        forall|i: int| spec_trim_end(s).len() <= i < s.len() ==> spec_is_whitespace(#[trigger] s[i]),
    decreases s.len(),
{
    if s.len() > 0 && spec_is_whitespace(s.last()) {
        lemma_trim_end_shape(s.drop_last());
        assert forall|i: int| spec_trim_end(s).len() <= i < s.len() implies spec_is_whitespace(
            #[trigger] s[i],
        ) by {
            if i < s.len() - 1 {
                assert(s[i] == s.drop_last()[i]);
            }
        }
        assert(s.drop_last().subrange(0, spec_trim_end(s).len() as int) == s.subrange(
            0,
            spec_trim_end(s).len() as int,
        ));
    } else {
        assert(s.subrange(0, s.len() as int) == s);
    }
}

/// The length of `s` once its trailing whitespace is removed.
pub fn trim_end_len(s: &[char]) -> (res: usize)
    ensures
        res <= s.len(),
        s@.subrange(0, res as int) == spec_trim_end(s@),
{
    let mut e: usize = s.len();
    assert(s@.subrange(0, e as int) == s@);
    while e > 0 && is_whitespace(s[e - 1])
        invariant
            e <= s.len(),
            spec_trim_end(s@.subrange(0, e as int)) == spec_trim_end(s@),
        decreases e,
    {
        assert(s@.subrange(0, e as int).drop_last() == s@.subrange(0, e - 1));
        e = e - 1;
    }
    e
}

/// The number of leading whitespace characters of `s`.
pub fn trim_start_len(s: &[char]) -> (res: usize)
    ensures
        res <= s.len(),
        s@.subrange(res as int, s.len() as int) == spec_trim_start(s@),
{
    let mut b: usize = 0;
    assert(s@.subrange(0, s.len() as int) == s@);
    while b < s.len() && is_whitespace(s[b])
        invariant
            b <= s.len(),
            spec_trim_start(s@.subrange(b as int, s.len() as int)) == spec_trim_start(s@),
        decreases s.len() - b,
    {
        assert(s@.subrange(b as int, s.len() as int).drop_first() == s@.subrange(
            b + 1,
            s.len() as int,
        ));
        b = b + 1;
    }
    b
}

/// Whether the character `c` occurs in `s`.
pub fn contains_char(s: &[char], c: char) -> (res: bool)
    ensures
        res == s@.contains(c),
{
    let mut i: usize = 0;
    while i < s.len()
        invariant
            i <= s.len(),
            forall|j: int| 0 <= j < i ==> s@[j] != c,
        decreases s.len() - i,
    {
        if s[i] == c {
            assert(s@[i as int] == c);
            return true;
        }
        i = i + 1;
    }
    false
}

/// `s` without trailing whitespace.
pub fn trim_end(s: &[char]) -> (res: Vec<char>)
    ensures
        res@ == spec_trim_end(s@),
{
    let e = trim_end_len(s);
    sub_chars(s, 0, e)
}

/// `s` without leading and trailing whitespace.
pub fn trim(s: &[char]) -> (res: Vec<char>)
    ensures
        res@ == spec_trim(s@),
{
    let t = trim_end(s);
    let b = trim_start_len(t.as_slice());
    sub_chars(t.as_slice(), b, t.len())
}

// ---------------------------------------------------------------------
// Lines
// ---------------------------------------------------------------------

/// The index of the first `'\n'` at or after `i`, or the length of `s`.
pub open spec fn line_end(s: Seq<char>, i: int) -> int
    decreases s.len() - i,
{
    if i >= s.len() || s[i] == '\n' {
        i
    } else {
        line_end(s, i + 1)
    }
}

/// A piece that ended with `'\n'` loses one carriage return before it.
pub open spec fn strip_cr(t: Seq<char>) -> Seq<char> {
    if t.len() > 0 && t.last() == '\r' {
        t.drop_last()
    } else {
        t
    }
}

/// The end of the line starting at `i` is the first line feed at or after
/// `i`, or the end of the text.
pub proof fn lemma_line_end(s: Seq<char>, i: int)
    requires
        0 <= i <= s.len(),
    ensures
        i <= line_end(s, i) <= s.len(),
        line_end(s, i) < s.len() ==> s[line_end(s, i)] == '\n',
        forall|j: int| i <= j < line_end(s, i) ==> s[j] != '\n',
    decreases s.len() - i,
{
    if i < s.len() && s[i] != '\n' {
        lemma_line_end(s, i + 1);
    }
}

/// The lines of `s[start..]`, split as `str::lines` splits them.
pub open spec fn lines_from(s: Seq<char>, start: int) -> Seq<Seq<char>>
    decreases s.len() - start,
    via lines_from_decreases
{
    if start < 0 || start >= s.len() {
        seq![]
    } else {
        let e = line_end(s, start);
        let piece = s.subrange(start, e);
        if e < s.len() {
            seq![strip_cr(piece)] + lines_from(s, e + 1)
        } else {
            seq![piece]
        }
    }
}

#[via_fn]
proof fn lines_from_decreases(s: Seq<char>, start: int) {
    if 0 <= start < s.len() {
        lemma_line_end(s, start);
    }
}

/// The views of a sequence of character vectors.
pub open spec fn views(v: Seq<Vec<char>>) -> Seq<Seq<char>> {
    v.map_values(|l: Vec<char>| l@)
}

/// The lines of `s`: split at each `'\n'`, a `'\r'` right before it dropped,
/// and no empty line after a final `'\n'` (the behaviour of `str::lines`).
pub open spec fn spec_lines(s: Seq<char>) -> Seq<Seq<char>> {
    lines_from(s, 0)
}

/// The index of the first `'\n'` at or after `i`, or the length of `s`.
fn find_line_end(s: &[char], i: usize) -> (res: usize)
    requires
        i <= s.len(),
    ensures
        res == line_end(s@, i as int),
{
    let mut e = i;
    proof {
        lemma_line_end(s@, i as int);
    }
    while e < s.len() && s[e] != '\n'
        invariant
            i <= e <= s.len(),
            line_end(s@, e as int) == line_end(s@, i as int),
        decreases s.len() - e,
    {
        e = e + 1;
    }
    e
}

/// The lines of a text, as `str::lines` gives them.
pub fn lines_of(text: &str) -> (res: Vec<String>)
    ensures
        res@.map_values(|l: String| l@) == spec_lines(text@),
{
    let lines = split_lines(chars_of(text).as_slice());
    let mut out: Vec<String> = Vec::new();
    let mut i: usize = 0;
    while i < lines.len()
        invariant
            i <= lines.len(),
            out@.map_values(|l: String| l@) == views(lines@).take(i as int),
        decreases lines.len() - i,
    {
        let ghost before = out@.map_values(|l: String| l@);
        out.push(crate::bridge::string_of(lines[i].as_slice()));
        assert(out@.map_values(|l: String| l@) =~= before.push(lines@[i as int]@));
        assert(views(lines@).take(i + 1) =~= views(lines@).take(i as int).push(lines@[i as int]@));
        i = i + 1;
    }
    assert(views(lines@).take(lines.len() as int) == views(lines@));
    out
}

/// Splits `s` into lines as `str::lines` does.
pub fn split_lines(s: &[char]) -> (res: Vec<Vec<char>>)
    ensures
        views(res@) == spec_lines(s@),
{
    let mut res: Vec<Vec<char>> = Vec::new();
    let mut start: usize = 0;
    while start < s.len()
        invariant
            start <= s.len(),
            views(res@) + lines_from(s@, start as int) == spec_lines(s@),
        decreases s.len() - start,
    {
        let e = find_line_end(s, start);
        proof {
            lemma_line_end(s@, start as int);
        }
        let mut piece = sub_chars(s, start, e);
        if e < s.len() && piece.len() > 0 && piece[piece.len() - 1] == '\r' {
            piece.pop();
        }
        let ghost old_res = views(res@);
        res.push(piece);
        assert(views(res@) =~= old_res.push(piece@));
        if e < s.len() {
            assert(lines_from(s@, start as int) == seq![piece@] + lines_from(s@, e + 1));
            start = e + 1;
        } else {
            assert(lines_from(s@, start as int) == seq![piece@]);
            start = e;
        }
        assert(views(res@) + lines_from(s@, start as int) == spec_lines(s@));
    }
    assert(views(res@) + Seq::<Seq<char>>::empty() == views(res@));
    res
}


// ---------------------------------------------------------------------
// Decimal numbers
// ---------------------------------------------------------------------

/// The ASCII digit for `d` (`0 <= d < 10`).
pub open spec fn digit_char(d: nat) -> char {
    (d + 48) as char
}

/// `c` is an ASCII digit.
pub open spec fn is_digit(c: char) -> bool {
    '0' <= c && c <= '9'
}

/// The value of the ASCII digit `c`.
pub open spec fn digit_value(c: char) -> nat {
    (c as int - 48) as nat
}

/// The decimal representation of `n`, without sign or leading zeros
/// (what `n.to_string()` gives for an unsigned integer).
pub open spec fn spec_decimal(n: nat) -> Seq<char>
    decreases n,
{
    if n < 10 {
        seq![digit_char(n)]
    } else {
        spec_decimal(n / 10).push(digit_char(n % 10))
    }
}

fn digit_to_char(d: usize) -> (res: char)
    requires
        d < 10,
    ensures
        res == digit_char(d as nat),
{
    if d == 0 {
        '0'
    } else if d == 1 {
        '1'
    } else if d == 2 {
        '2'
    } else if d == 3 {
        '3'
    } else if d == 4 {
        '4'
    } else if d == 5 {
        '5'
    } else if d == 6 {
        '6'
    } else if d == 7 {
        '7'
    } else if d == 8 {
        '8'
    } else {
        '9'
    }
}

/// Appends the decimal representation of `n` to `v`.
pub fn push_decimal(v: &mut Vec<char>, n: usize)
    ensures
        final(v)@ == old(v)@ + spec_decimal(n as nat),
    decreases n,
{
    if n >= 10 {
        push_decimal(v, n / 10);
    }
    v.push(digit_to_char(n % 10));
    if n >= 10 {
        assert(spec_decimal(n as nat) == spec_decimal((n / 10) as nat).push(digit_char((n % 10) as nat)));
    }
}

/// Appends the decimal representation of a `u64` to `v`.
pub fn push_decimal_u64(v: &mut Vec<char>, n: u64)
    ensures
        final(v)@ == old(v)@ + spec_decimal(n as nat),
    decreases n,
{
    if n >= 10 {
        push_decimal_u64(v, n / 10);
    }
    v.push(digit_to_char((n % 10) as usize));
    if n >= 10 {
        assert(spec_decimal(n as nat) == spec_decimal((n / 10) as nat).push(digit_char((n % 10) as nat)));
    }
}

/// The decimal representation of `n`.
pub fn decimal(n: usize) -> (res: Vec<char>)
    ensures
        res@ == spec_decimal(n as nat),
{
    let mut v: Vec<char> = Vec::new();
    push_decimal(&mut v, n);
    assert(v@ == Seq::<char>::empty() + spec_decimal(n as nat));
    v
}

/// Every character of `s` is an ASCII digit.
pub open spec fn all_digits(s: Seq<char>) -> bool {
    forall|i: int| 0 <= i < s.len() ==> is_digit(#[trigger] s[i])
}

/// The value of a string of decimal digits.
pub open spec fn digits_value(s: Seq<char>) -> nat
    decreases s.len(),
{
    if s.len() == 0 {
        0
    } else {
        digits_value(s.drop_last()) * 10 + digit_value(s.last())
    }
}

/// The digits that `usize::from_str` reads: one leading `'+'` is skipped.
pub open spec fn unsigned_digits(s: Seq<char>) -> Seq<char> {
    if s.len() > 0 && s[0] == '+' {
        s.drop_first()
    } else {
        s
    }
}

/// What `s.parse::<usize>()` gives: an optional `'+'`, then at least one
/// ASCII digit and nothing else, with a value that fits in `usize`.
pub open spec fn spec_parse_usize(s: Seq<char>) -> Option<usize> {
    let d = unsigned_digits(s);
    if d.len() > 0 && all_digits(d) && digits_value(d) <= usize::MAX {
        Some(digits_value(d) as usize)
    } else {
        None
    }
}

/// A prefix of a digit string is worth no more than the whole string.
pub proof fn lemma_digits_value_prefix(s: Seq<char>, i: int)
    requires
        0 <= i <= s.len(),
    ensures
        digits_value(s.take(i)) <= digits_value(s),
    decreases s.len(),
{
    if i < s.len() {
        lemma_digits_value_prefix(s.drop_last(), i);
        assert(s.drop_last().take(i) == s.take(i));
    } else {
        assert(s.take(i) == s);
    }
}

/// Parses `s` as `str::parse::<usize>` does.
pub fn parse_usize(s: &[char]) -> (res: Option<usize>)
    ensures
        res == spec_parse_usize(s@),
{
    let start: usize = if s.len() > 0 && s[0] == '+' {
        1
    } else {
        0
    };
    let ghost d = unsigned_digits(s@);
    assert(d == s@.subrange(start as int, s.len() as int));
    if start >= s.len() {
        return None;
    }
    let mut acc: usize = 0;
    let mut overflow = false;
    let mut i: usize = start;
    while i < s.len()
        invariant
            start <= i <= s.len(),
            d == unsigned_digits(s@),
            d == s@.subrange(start as int, s.len() as int),
            forall|j: int| 0 <= j < i - start ==> is_digit(#[trigger] d[j]),
            !overflow ==> acc == digits_value(d.take(i - start)),
            overflow ==> digits_value(d.take(i - start)) > usize::MAX,
        decreases s.len() - i,
    {
        let c = s[i];
        assert(d[i - start] == c);
        if !('0' <= c && c <= '9') {
            assert(!is_digit(d[i - start]));
            assert(!all_digits(d));
            return None;
        }
        let ghost k = i - start;
        assert(d.take(k + 1).drop_last() == d.take(k));
        assert(d.take(k + 1).last() == c);
        let dv: usize = (c as u32 - 48) as usize;
        if !overflow {
            if acc > (usize::MAX - dv) / 10 {
                overflow = true;
            } else {
                acc = acc * 10 + dv;
            }
        }
        i = i + 1;
    }
    assert(d.take(d.len() as int) == d);
    if overflow {
        None
    } else {
        Some(acc)
    }
}

/// The digit characters are the ASCII digits, each worth its digit.
pub proof fn lemma_digit_char(d: nat)
    requires
        d < 10,
    ensures
        is_digit(digit_char(d)),
        digit_value(digit_char(d)) == d,
        digit_char(d) != '+',
{
    assert(((d + 48) as char) as int == d + 48);
}

/// Reading back a decimal representation gives the number.
pub proof fn lemma_parse_decimal(n: nat)
    requires
        n <= usize::MAX,
    ensures
        all_digits(spec_decimal(n)),
        spec_decimal(n).len() > 0,
        spec_decimal(n)[0] != '+',
        digits_value(spec_decimal(n)) == n,
        spec_parse_usize(spec_decimal(n)) == Some(n as usize),
    decreases n,
{
    lemma_digit_char(n % 10);
    let s = spec_decimal(n);
    if n >= 10 {
        lemma_parse_decimal(n / 10);
        assert(s.drop_last() == spec_decimal(n / 10));
        assert(s.last() == digit_char(n % 10));
        assert(s[0] == spec_decimal(n / 10)[0]);
        assert(digits_value(s) == (n / 10) * 10 + n % 10);
    } else {
        assert(s.drop_last() == Seq::<char>::empty());
        assert(digits_value(Seq::<char>::empty()) == 0);
        assert(s.last() == digit_char(n));
        assert(digits_value(s) == digit_value(digit_char(n)));
    }
    assert(unsigned_digits(s) == s);
}


// ---------------------------------------------------------------------
// Joining and replacing
// ---------------------------------------------------------------------

/// The parts joined with `sep` between consecutive parts (as `[T]::join`).
pub open spec fn spec_join(parts: Seq<Seq<char>>, sep: Seq<char>) -> Seq<char>
    decreases parts.len(),
{
    if parts.len() == 0 {
        seq![]
    } else if parts.len() == 1 {
        parts[0]
    } else {
        spec_join(parts.drop_last(), sep) + sep + parts.last()
    }
}

/// Joins the parts with `sep` between consecutive parts.
pub fn join(parts: &Vec<Vec<char>>, sep: &[char]) -> (res: Vec<char>)
    ensures
        res@ == spec_join(views(parts@), sep@),
{
    let mut res: Vec<char> = Vec::new();
    let mut i: usize = 0;
    while i < parts.len()
        invariant
            i <= parts.len(),
            res@ == spec_join(views(parts@).take(i as int), sep@),
        decreases parts.len() - i,
    {
        let ghost prev = views(parts@).take(i as int);
        assert(views(parts@).take(i + 1).drop_last() == prev);
        if i > 0 {
            push_chars(&mut res, sep);
        }
        push_chars(&mut res, parts[i].as_slice());
        i = i + 1;
        if i == 1 {
            assert(spec_join(views(parts@).take(1), sep@) == views(parts@)[0]);
        }
    }
    assert(views(parts@).take(parts.len() as int) == views(parts@));
    res
}

/// `s` with every non-overlapping occurrence of `pat`, scanned from the
/// left, replaced by `rep` (as `str::replace`, for a non-empty `pat`).
pub open spec fn spec_replace(s: Seq<char>, pat: Seq<char>, rep: Seq<char>) -> Seq<char>
    decreases s.len(),
{
    if s.len() == 0 {
        seq![]
    } else if pat.len() > 0 && spec_starts_with(s, pat) {
        rep + spec_replace(s.skip(pat.len() as int), pat, rep)
    } else {
        seq![s[0]] + spec_replace(s.drop_first(), pat, rep)
    }
}

/// Replaces every occurrence of `pat` in `s` by `rep`, scanning from the left.
pub fn replace(s: &[char], pat: &[char], rep: &[char]) -> (res: Vec<char>)
    requires
        pat.len() > 0,
    ensures
        res@ == spec_replace(s@, pat@, rep@),
{
    let mut res: Vec<char> = Vec::new();
    let mut i: usize = 0;
    assert(s@.skip(0) == s@);
    assert(res@ + spec_replace(s@, pat@, rep@) == spec_replace(s@, pat@, rep@));
    while i < s.len()
        invariant
            i <= s.len(),
            pat.len() > 0,
            res@ + spec_replace(s@.skip(i as int), pat@, rep@) == spec_replace(s@, pat@, rep@),
        decreases s.len() - i,
    {
        let ghost rest = s@.skip(i as int);
        if matches_at(s, pat, i) {
            assert(rest.subrange(0, pat.len() as int) == s@.subrange(i as int, i + pat.len()));
            assert(rest.skip(pat.len() as int) == s@.skip(i + pat.len()));
            push_chars(&mut res, rep);
            i = i + pat.len();
        } else {
            assert(pat@.len() <= rest.len() ==> rest.subrange(0, pat.len() as int) == s@.subrange(
                i as int,
                i + pat.len(),
            ));
            assert(rest.drop_first() == s@.skip(i + 1));
            assert(seq![rest[0]] == seq![s@[i as int]]);
            res.push(s[i]);
            i = i + 1;
        }
    }
    assert(s@.skip(s.len() as int) == Seq::<char>::empty());
    assert(res@ + Seq::<char>::empty() == res@);
    res
}


// ---------------------------------------------------------------------
// Searching
// ---------------------------------------------------------------------

/// The first position at or after `i` where `p` occurs in `s`.
pub open spec fn find_from(s: Seq<char>, p: Seq<char>, i: int) -> Option<int>
    decreases s.len() - i,
{
    if i < 0 || i + p.len() > s.len() {
        None
    } else if occurs_at(s, p, i) {
        Some(i)
    } else if i >= s.len() {
        None
    } else {
        find_from(s, p, i + 1)
    }
}

/// The first position where `p` occurs in `s`.
pub open spec fn spec_find(s: Seq<char>, p: Seq<char>) -> Option<int> {
    find_from(s, p, 0)
}

/// The search from `i` finds the first occurrence of `p` at or after `i`, and
/// finds nothing only when there is none.
pub proof fn lemma_find_from(s: Seq<char>, p: Seq<char>, i: int)
    requires
        0 <= i,
    ensures
        find_from(s, p, i) matches Some(k) ==> i <= k && occurs_at(s, p, k) && forall|j: int|
            i <= j < k ==> !occurs_at(s, p, j),
        find_from(s, p, i) is None ==> forall|j: int| i <= j ==> !occurs_at(s, p, j),
    decreases s.len() - i,
{
    if i + p.len() <= s.len() && !occurs_at(s, p, i) && i < s.len() {
        lemma_find_from(s, p, i + 1);
        assert forall|j: int| i <= j && !(i + 1 <= j) implies !occurs_at(s, p, j) by {}
    }
}

/// The first position where `p` occurs in `s`, if any.
pub fn find(s: &[char], p: &[char]) -> (res: Option<usize>)
    ensures
        match res {
            Some(k) => spec_find(s@, p@) == Some(k as int),
            None => spec_find(s@, p@) is None,
        },
{
    if p.len() > s.len() {
        return None;
    }
    let last = s.len() - p.len();
    let mut i: usize = 0;
    loop
        invariant
            p.len() <= s.len(),
            last == s.len() - p.len(),
            i <= last,
            find_from(s@, p@, i as int) == spec_find(s@, p@),
        decreases last - i,
    {
        if matches_at(s, p, i) {
            return Some(i);
        }
        if i == last {
            assert(find_from(s@, p@, i + 1) is None);
            return None;
        }
        i = i + 1;
    }
}

/// Whether two character sequences are equal.
pub fn same_chars(a: &[char], b: &[char]) -> (res: bool)
    ensures
        res == (a@ == b@),
{
    if a.len() != b.len() {
        return false;
    }
    let r = matches_at(a, b, 0);
    assert(a@.subrange(0, b@.len() as int) == a@);
    r
}

/// Whether two string slices hold the same text.
pub fn same_text(a: &str, b: &str) -> (res: bool)
    ensures
        res == (a@ == b@),
{
    let ac = chars_of(a);
    let bc = chars_of(b);
    same_chars(ac.as_slice(), bc.as_slice())
}


// ---------------------------------------------------------------------
// Lines of joined text
// ---------------------------------------------------------------------

proof fn lemma_line_end_shift(s: Seq<char>, k: int, i: int)
    requires
        0 <= k <= s.len(),
        0 <= i <= s.len() - k,
    ensures
        line_end(s, k + i) == k + line_end(s.skip(k), i),
    decreases s.len() - k - i,
{
    if k + i < s.len() && s[k + i] != '\n' {
        assert(s.skip(k)[i] == s[k + i]);
        lemma_line_end_shift(s, k, i + 1);
    } else if k + i < s.len() {
        assert(s.skip(k)[i] == s[k + i]);
    }
}

proof fn lemma_lines_from_shift(s: Seq<char>, k: int, i: int)
    requires
        0 <= k <= s.len(),
        0 <= i <= s.len() - k,
    ensures
        lines_from(s, k + i) == lines_from(s.skip(k), i),
    decreases s.len() - k - i,
{
    if k + i < s.len() {
        lemma_line_end_shift(s, k, i);
        lemma_line_end(s, k + i);
        let e = line_end(s, k + i);
        assert(s.subrange(k + i, e) == s.skip(k).subrange(i, e - k));
        if e < s.len() {
            lemma_lines_from_shift(s, k, e + 1 - k);
        }
    }
}

/// The lines of a text are the lines of what follows a line break.
pub proof fn lemma_lines_skip(s: Seq<char>, k: int)
    requires
        0 <= k <= s.len(),
    ensures
        lines_from(s, k) == spec_lines(s.skip(k)),
{
    lemma_lines_from_shift(s, k, 0);
}

/// No line holds a line feed.
pub proof fn lemma_lines_from_no_newline(s: Seq<char>, start: int)
    requires
        0 <= start,
    ensures
        forall|i: int| 0 <= i < lines_from(s, start).len() ==> !(#[trigger] lines_from(s, start)[i]).contains('\n'),
    decreases s.len() - start,
{
    if start < s.len() {
        lemma_line_end(s, start);
        let e = line_end(s, start);
        let piece = s.subrange(start, e);
        assert(!piece.contains('\n')) by {
            if piece.contains('\n') {
                let j = choose|j: int| 0 <= j < piece.len() && piece[j] == '\n';
                assert(s[start + j] == '\n');
            }
        }
        assert(!strip_cr(piece).contains('\n')) by {
            if strip_cr(piece).contains('\n') {
                let j = choose|j: int| 0 <= j < strip_cr(piece).len() && strip_cr(piece)[j] == '\n';
                assert(piece[j] == '\n');
            }
        }
        if e < s.len() {
            lemma_lines_from_no_newline(s, e + 1);
            let r = lines_from(s, e + 1);
            assert forall|i: int| 0 <= i < lines_from(s, start).len() implies !(
            #[trigger] lines_from(s, start)[i]).contains('\n') by {
                if i > 0 {
                    assert(lines_from(s, start)[i] == r[i - 1]);
                }
            }
        }
    }
}

/// The lines of a text hold no line feed.
pub proof fn lemma_lines_no_newline(s: Seq<char>)
    ensures
        forall|i: int| 0 <= i < spec_lines(s).len() ==> !(#[trigger] spec_lines(s)[i]).contains('\n'),
{
    lemma_lines_from_no_newline(s, 0);
}

proof fn lemma_join_front(parts: Seq<Seq<char>>, sep: Seq<char>)
    requires
        parts.len() >= 2,
    ensures
        spec_join(parts, sep) == parts[0] + sep + spec_join(parts.drop_first(), sep),
    decreases parts.len(),
{
    if parts.len() == 2 {
        assert(parts.drop_last() =~= seq![parts[0]]);
        assert(parts.drop_first() =~= seq![parts[1]]);
        assert(spec_join(seq![parts[0]], sep) == parts[0]);
        assert(spec_join(seq![parts[1]], sep) == parts[1]);
    } else {
        lemma_join_front(parts.drop_last(), sep);
        let df = parts.drop_first();
        assert(parts.drop_last().drop_first() == df.drop_last());
        assert(df.last() == parts.last());
        assert(spec_join(df, sep) == spec_join(df.drop_last(), sep) + sep + df.last());
        assert(spec_join(parts, sep) =~= parts[0] + sep + spec_join(df, sep));
    }
}

/// The parts a text can be cut into at line feeds: none of them holds a line
/// feed or ends with a carriage return.
pub open spec fn clean_parts(parts: Seq<Seq<char>>) -> bool {
    forall|i: int| 0 <= i < parts.len() ==> {
        let p = #[trigger] parts[i];
        !p.contains('\n') && !(p.len() > 0 && p.last() == '\r')
    }
}

/// Splitting parts joined by line feeds gives back parts: every line is one
/// of them (an empty last part is dropped).
pub proof fn lemma_lines_of_join(parts: Seq<Seq<char>>)
    requires
        clean_parts(parts),
    ensures
        forall|i: int| 0 <= i < spec_lines(spec_join(parts, "\n"@)).len() ==> parts.contains(
            #[trigger] spec_lines(spec_join(parts, "\n"@))[i],
        ),
    decreases parts.len(),
{
    reveal_strlit("\n");
    let s = spec_join(parts, "\n"@);
    if parts.len() == 0 {
    } else if parts.len() == 1 {
        let p = parts[0];
        if p.len() > 0 {
            lemma_line_end(p, 0);
            assert(line_end(p, 0) == p.len()) by {
                if line_end(p, 0) < p.len() {
                    assert(p.contains('\n'));
                }
            }
            assert(p.subrange(0, p.len() as int) == p);
            assert(spec_lines(s) == seq![p]);
        }
    } else {
        lemma_join_front(parts, "\n"@);
        let first = parts[0];
        let rest = parts.drop_first();
        assert(clean_parts(rest)) by {
            assert forall|i: int| 0 <= i < rest.len() implies {
                let p = #[trigger] rest[i];
                !p.contains('\n') && !(p.len() > 0 && p.last() == '\r')
            } by {
                assert(rest[i] == parts[i + 1]);
            }
        }
        lemma_lines_of_join(rest);
        let k = first.len() as int;
        assert(s[k] == '\n');
        lemma_line_end(s, 0);
        assert(line_end(s, 0) == k) by {
            assert forall|j: int| 0 <= j < k implies s[j] != '\n' by {
                assert(s[j] == first[j]);
            }
            if line_end(s, 0) < k {
                assert(s[line_end(s, 0)] == first[line_end(s, 0)]);
                assert(first.contains('\n'));
            }
        }
        assert(s.subrange(0, k) == first);
        assert(strip_cr(first) == first);
        lemma_lines_skip(s, k + 1);
        assert(s.skip(k + 1) == spec_join(rest, "\n"@));
        let r = spec_lines(spec_join(rest, "\n"@));
        assert(spec_lines(s) == seq![first] + r);
        assert forall|i: int| 0 <= i < spec_lines(s).len() implies parts.contains(
            #[trigger] spec_lines(s)[i],
        ) by {
            if i == 0 {
                assert(parts[0] == first);
            } else {
                assert(spec_lines(s)[i] == r[i - 1]);
                assert(rest.contains(r[i - 1]));
                let j = choose|j: int| 0 <= j < rest.len() && rest[j] == r[i - 1];
                assert(parts[j + 1] == rest[j]);
            }
        }
    }
}


proof fn lemma_lines_from_suffix(s: Seq<char>, start: int, k: int, x: Seq<char>)
    requires
        0 <= start <= k <= s.len(),
        k == start || s[k - 1] == '\n',
        lines_from(s, k).contains(x),
    ensures
        lines_from(s, start).contains(x),
    decreases s.len() - start,
{
    if k > start {
        lemma_line_end(s, start);
        let e = line_end(s, start);
        assert(e <= k - 1) by {
            if e > k - 1 {
                assert(s[k - 1] != '\n');
            }
        }
        lemma_lines_from_suffix(s, e + 1, k, x);
        let r = lines_from(s, e + 1);
        let j = choose|j: int| 0 <= j < r.len() && r[j] == x;
        assert(lines_from(s, start)[j + 1] == r[j]);
    }
}

/// A non-empty last part without a line feed, after a line feed, is a line
/// of the text.
pub proof fn lemma_last_line(head: Seq<char>, last: Seq<char>)
    requires
        last.len() > 0,
        !last.contains('\n'),
    ensures
        spec_lines(head + "\n"@ + last).contains(last),
{
    reveal_strlit("\n");
    let s = head + "\n"@ + last;
    let k: int = head.len() as int + 1;
    assert(s[k - 1] == '\n');
    lemma_lines_skip(s, k);
    assert(s.skip(k) == last);
    lemma_line_end(last, 0);
    assert(line_end(last, 0) == last.len()) by {
        if line_end(last, 0) < last.len() {
            assert(last.contains('\n'));
        }
    }
    assert(last.subrange(0, last.len() as int) == last);
    assert(spec_lines(last) == seq![last]);
    assert(lines_from(s, k)[0] == last);
    lemma_lines_from_suffix(s, 0, k, last);
}


/// The pieces of `s[start..]` between line feeds: cut at every `'\n'`, with
/// an empty piece after a final one (as `str::split('\n')`).
pub open spec fn split_from(s: Seq<char>, start: int) -> Seq<Seq<char>>
    decreases s.len() - start,
    via split_from_decreases
{
    if start < 0 || start > s.len() {
        seq![]
    } else {
        let e = line_end(s, start);
        if e < s.len() {
            seq![s.subrange(start, e)] + split_from(s, e + 1)
        } else {
            seq![s.subrange(start, s.len() as int)]
        }
    }
}

#[via_fn]
proof fn split_from_decreases(s: Seq<char>, start: int) {
    if 0 <= start <= s.len() {
        lemma_line_end(s, start);
    }
}

/// The pieces of `s` between line feeds.
pub open spec fn spec_pieces(s: Seq<char>) -> Seq<Seq<char>> {
    split_from(s, 0)
}

proof fn lemma_split_from(s: Seq<char>, start: int)
    requires
        0 <= start <= s.len(),
    ensures
        split_from(s, start).len() >= 1,
        spec_join(split_from(s, start), "\n"@) == s.subrange(start, s.len() as int),
        forall|i: int|
            0 <= i < split_from(s, start).len() ==> !(#[trigger] split_from(s, start)[i]).contains('\n'),
    decreases s.len() - start,
{
    reveal_strlit("\n");
    lemma_line_end(s, start);
    let e = line_end(s, start);
    let a = s.subrange(start, e);
    let ps = split_from(s, start);
    assert(!a.contains('\n')) by {
        if a.contains('\n') {
            let j = choose|j: int| 0 <= j < a.len() && a[j] == '\n';
            assert(s[start + j] == '\n');
        }
    }
    if e < s.len() {
        lemma_split_from(s, e + 1);
        let rest = split_from(s, e + 1);
        assert(ps == seq![a] + rest);
        lemma_join_front(ps, "\n"@);
        assert(ps.drop_first() =~= rest);
        assert(ps[0] == a);
        assert(s.subrange(start, s.len() as int) =~= a + "\n"@ + s.subrange(e + 1, s.len() as int));
        assert forall|i: int| 0 <= i < ps.len() implies !(#[trigger] ps[i]).contains('\n') by {
            if i > 0 {
                assert(ps[i] == rest[i - 1]);
            }
        }
    } else {
        assert(ps == seq![a]);
    }
}

/// Joining the pieces of a text with line feeds gives the text back; no piece
/// holds a line feed, there is at least one, and the last is how the text
/// ends.
pub proof fn lemma_pieces(s: Seq<char>)
    ensures
        spec_pieces(s).len() >= 1,
        spec_join(spec_pieces(s), "\n"@) == s,
        forall|i: int| 0 <= i < spec_pieces(s).len() ==> !(#[trigger] spec_pieces(s)[i]).contains('\n'),
        spec_pieces(s).last().len() <= s.len(),
        s.subrange(s.len() - spec_pieces(s).last().len(), s.len() as int) == spec_pieces(s).last(),
{
    lemma_split_from(s, 0);
    assert(s.subrange(0, s.len() as int) == s);
    let ps = spec_pieces(s);
    reveal_strlit("\n");
    if ps.len() > 1 {
        let h = spec_join(ps.drop_last(), "\n"@);
        assert(s == h + "\n"@ + ps.last());
        assert(s.subrange(s.len() - ps.last().len(), s.len() as int) =~= ps.last());
    } else {
        assert(s == ps[0]);
        assert(s.subrange(0, s.len() as int) == s);
    }
}

/// The pieces of a text.
pub fn pieces(s: &[char]) -> (res: Vec<Vec<char>>)
    ensures
        views(res@) == spec_pieces(s@),
{
    let mut out: Vec<Vec<char>> = Vec::new();
    let mut start: usize = 0;
    let mut done = false;
    assert(views(out@) + split_from(s@, 0) =~= spec_pieces(s@));
    while !done
        invariant
            start <= s.len(),
            !done ==> views(out@) + split_from(s@, start as int) == spec_pieces(s@),
            done ==> views(out@) == spec_pieces(s@),
        decreases s.len() - start + if done {
            0int
        } else {
            1int
        },
    {
        let e = find_line_end(s, start);
        proof {
            lemma_line_end(s@, start as int);
        }
        let ghost before = views(out@);
        let ghost a = s@.subrange(start as int, e as int);
        out.push(sub_chars(s, start, e));
        assert(views(out@) =~= before.push(a));
        if e < s.len() {
            assert(split_from(s@, start as int) == seq![a] + split_from(s@, e + 1));
            assert(before + (seq![a] + split_from(s@, e + 1)) =~= before.push(a) + split_from(
                s@,
                e + 1,
            ));
            start = e + 1;
        } else {
            assert(split_from(s@, start as int) == seq![a]);
            assert(before + seq![a] =~= before.push(a));
            done = true;
        }
    }
    out
}

/// The line that piece `j` becomes when the pieces are joined with line
/// feeds: a piece followed by a line feed loses a carriage return at its end.
pub open spec fn piece_line(parts: Seq<Seq<char>>, j: int) -> Seq<char> {
    if j < parts.len() - 1 {
        strip_cr(parts[j])
    } else {
        parts[j]
    }
}

/// What holds of the line of every piece holds of every line of the pieces
/// joined with line feeds.
pub proof fn lemma_lines_of_join_keep(parts: Seq<Seq<char>>, good: spec_fn(Seq<char>) -> bool)
    requires
        forall|i: int| 0 <= i < parts.len() ==> !(#[trigger] parts[i]).contains('\n'),
        forall|j: int| 0 <= j < parts.len() ==> good(#[trigger] piece_line(parts, j)),
    ensures
        forall|i: int|
            0 <= i < spec_lines(spec_join(parts, "\n"@)).len() ==> good(
                #[trigger] spec_lines(spec_join(parts, "\n"@))[i],
            ),
    decreases parts.len(),
{
    reveal_strlit("\n");
    let s = spec_join(parts, "\n"@);
    if parts.len() == 0 {
    } else if parts.len() == 1 {
        let p = parts[0];
        assert(good(piece_line(parts, 0)));
        if p.len() > 0 {
            lemma_line_end(p, 0);
            assert(line_end(p, 0) == p.len()) by {
                if line_end(p, 0) < p.len() {
                    assert(p.contains('\n'));
                }
            }
            assert(p.subrange(0, p.len() as int) == p);
            assert(spec_lines(s) == seq![p]);
        }
    } else {
        lemma_join_front(parts, "\n"@);
        let first = parts[0];
        let rest = parts.drop_first();
        assert forall|i: int| 0 <= i < rest.len() implies !(#[trigger] rest[i]).contains('\n') by {
            assert(rest[i] == parts[i + 1]);
        }
        assert forall|j: int| 0 <= j < rest.len() implies good(#[trigger] piece_line(rest, j)) by {
            assert(piece_line(rest, j) == piece_line(parts, j + 1));
        }
        lemma_lines_of_join_keep(rest, good);
        let k = first.len() as int;
        assert(s[k] == '\n');
        lemma_line_end(s, 0);
        assert(line_end(s, 0) == k) by {
            assert forall|j: int| 0 <= j < k implies s[j] != '\n' by {
                assert(s[j] == first[j]);
            }
            if line_end(s, 0) < k {
                assert(s[line_end(s, 0)] == first[line_end(s, 0)]);
                assert(first.contains('\n'));
            }
        }
        assert(s.subrange(0, k) == first);
        lemma_lines_skip(s, k + 1);
        assert(s.skip(k + 1) == spec_join(rest, "\n"@));
        let r = spec_lines(spec_join(rest, "\n"@));
        assert(spec_lines(s) == seq![strip_cr(first)] + r);
        assert(good(piece_line(parts, 0)));
        assert forall|i: int| 0 <= i < spec_lines(s).len() implies good(#[trigger] spec_lines(s)[i]) by {
            if i > 0 {
                assert(spec_lines(s)[i] == r[i - 1]);
            }
        }
    }
}

/// Splitting clean parts joined by line feeds gives back the parts, but for
/// an empty last part, which a final line feed does not make a line.
pub proof fn lemma_lines_of_join_clean(parts: Seq<Seq<char>>)
    requires
        clean_parts(parts),
        parts.len() >= 1,
    ensures
        spec_lines(spec_join(parts, "\n"@)) == if parts.last().len() > 0 {
            parts
        } else {
            parts.drop_last()
        },
    decreases parts.len(),
{
    reveal_strlit("\n");
    let s = spec_join(parts, "\n"@);
    if parts.len() == 1 {
        let p = parts[0];
        if p.len() > 0 {
            lemma_line_end(p, 0);
            assert(line_end(p, 0) == p.len()) by {
                if line_end(p, 0) < p.len() {
                    assert(p.contains('\n'));
                }
            }
            assert(p.subrange(0, p.len() as int) == p);
            assert(spec_lines(s) =~= parts);
        } else {
            assert(spec_lines(s) =~= parts.drop_last());
        }
    } else {
        lemma_join_front(parts, "\n"@);
        let first = parts[0];
        let rest = parts.drop_first();
        assert(clean_parts(rest)) by {
            assert forall|i: int| 0 <= i < rest.len() implies {
                let p = #[trigger] rest[i];
                !p.contains('\n') && !(p.len() > 0 && p.last() == '\r')
            } by {
                assert(rest[i] == parts[i + 1]);
            }
        }
        assert(rest.last() == parts.last());
        lemma_lines_of_join_clean(rest);
        let k = first.len() as int;
        assert(s[k] == '\n');
        lemma_line_end(s, 0);
        assert(line_end(s, 0) == k) by {
            assert forall|j: int| 0 <= j < k implies s[j] != '\n' by {
                assert(s[j] == first[j]);
            }
            if line_end(s, 0) < k {
                assert(s[line_end(s, 0)] == first[line_end(s, 0)]);
                assert(first.contains('\n'));
            }
        }
        assert(s.subrange(0, k) == first);
        assert(strip_cr(first) == first);
        lemma_lines_skip(s, k + 1);
        assert(s.skip(k + 1) == spec_join(rest, "\n"@));
        assert(spec_lines(s) == seq![first] + spec_lines(spec_join(rest, "\n"@)));
        if parts.last().len() > 0 {
            assert(spec_lines(s) =~= parts);
        } else {
            assert(spec_lines(s) =~= parts.drop_last());
        }
    }
}

/// The trimmed start is a suffix of the string that begins with no
/// whitespace.
pub proof fn lemma_trim_start_shape(s: Seq<char>)
    ensures
        spec_trim_start(s).len() <= s.len(),
        spec_trim_start(s) == s.skip(s.len() - spec_trim_start(s).len()),
        spec_trim_start(s).len() > 0 ==> !spec_is_whitespace(spec_trim_start(s)[0]),
    decreases s.len(),
{
    if s.len() > 0 && spec_is_whitespace(s[0]) {
        lemma_trim_start_shape(s.drop_first());
        let t = spec_trim_start(s);
        assert(s.drop_first().skip(s.drop_first().len() - t.len()) =~= s.skip(s.len() - t.len()));
    } else {
        assert(s.skip(0) =~= s);
    }
}

/// Trimming twice is trimming once.
pub proof fn lemma_trim_twice(s: Seq<char>)
    ensures
        spec_trim(spec_trim(s)) == spec_trim(s),
{
    let t = spec_trim_end(s);
    let u = spec_trim_start(t);
    lemma_trim_end_shape(s);
    lemma_trim_start_shape(t);
    if u.len() > 0 {
        assert(u.last() == t.last());
        assert(spec_trim_end(u) == u);
        assert(spec_trim_start(u) == u);
    } else {
        assert(spec_trim_end(u) == u);
        assert(spec_trim_start(u) == u);
    }
}

/// Trimming the end twice is trimming it once.
pub proof fn lemma_trim_end_idempotent(s: Seq<char>)
    ensures
        spec_trim_end(spec_trim_end(s)) == spec_trim_end(s),
{
    lemma_trim_end_shape(s);
}

} // verus!

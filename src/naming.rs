use vstd::prelude::*;

use crate::parse::trim_start;
use crate::settings::{trim_both, trim_chars, trim_end};
use crate::text::{append_chars, chars_of, decimal_chars, decimal_of, lower_of, occurs_at, occurs_at_exec, string_of, to_lower};

verus! {

/// A character that cannot stand in a file name here: `/`, `\` or `:`.
pub open spec fn is_separator(c: char) -> bool {
    c == '/' || c == '\\' || c == ':'
}

pub open spec fn dash_separators(s: Seq<char>) -> Seq<char> {
    s.map_values(|c: char| if is_separator(c) {
        '-'
    } else {
        c
    })
}

/// A file name made safe: `/`, `\` and `:` become `-`, and the ends are trimmed.
pub open spec fn sanitized(s: Seq<char>) -> Seq<char> {
    trim_both(dash_separators(s))
}

fn sanitize_chars(s: &[char]) -> (r: Vec<char>)
    ensures
        r@ == sanitized(s@),
{
    let mut out: Vec<char> = Vec::new();
    let mut i: usize = 0;
    while i < s.len()
        invariant
            i <= s@.len(),
            out@ == dash_separators(s@.subrange(0, i as int)),
        decreases s@.len() - i,
    {
        let c = s[i];
        if c == '/' || c == '\\' || c == ':' {
            out.push('-');
        } else {
            out.push(c);
        }
        assert(dash_separators(s@.subrange(0, i + 1)) =~= dash_separators(s@.subrange(0, i as int)).push(
            out@.last(),
        ));
        i += 1;
    }
    assert(s@.subrange(0, s@.len() as int) == s@);
    trim_chars(out.as_slice())
}

/// Replaces `/`, `\` and `:` with `-` and trims the result.
pub fn sanitize_filename(value: &str) -> (r: String)
    ensures
        r@ == sanitized(value@),
{
    let chars = chars_of(value);
    let out = sanitize_chars(chars.as_slice());
    string_of(out.as_slice())
}

/// Every occurrence of `pat` in `s`, taken left to right without overlap,
/// replaced by `v`, as `str::replace` does.
pub open spec fn replace_all(s: Seq<char>, pat: Seq<char>, v: Seq<char>) -> Seq<char>
    decreases s.len(),
{
    if pat.len() == 0 || s.len() == 0 {
        s
    } else if occurs_at(s, pat, 0) {
        v + replace_all(s.subrange(pat.len() as int, s.len() as int), pat, v)
    } else {
        seq![s[0]] + replace_all(s.drop_first(), pat, v)
    }
}

fn replace_chars(s: &[char], pat: &[char], v: &[char]) -> (r: Vec<char>)
    requires
        pat@.len() > 0,
    ensures
        r@ == replace_all(s@, pat@, v@),
{
    let n = s.len();
    let mut out: Vec<char> = Vec::new();
    let mut i: usize = 0;
    assert(s@.subrange(0, n as int) == s@);
    while i < n
        invariant
            n == s@.len(),
            pat@.len() > 0,
            i <= n,
            out@ + replace_all(s@.subrange(i as int, n as int), pat@, v@) == replace_all(
                s@,
                pat@,
                v@,
            ),
        decreases n - i,
    {
        let ghost rest = s@.subrange(i as int, n as int);
        let ghost before = out@;
        if occurs_at_exec(s, pat, i) {
            assert(rest.subrange(0, pat@.len() as int) == s@.subrange(i as int, i + pat@.len()));
            assert(occurs_at(rest, pat@, 0));
            assert(rest.subrange(pat@.len() as int, rest.len() as int) == s@.subrange(
                i + pat@.len(),
                n as int,
            ));
            append_chars(&mut out, v);
            assert(out@ + replace_all(s@.subrange(i + pat@.len(), n as int), pat@, v@) == before
                + replace_all(rest, pat@, v@));
            i += pat.len();
        } else {
            proof {
                if occurs_at(rest, pat@, 0) {
                    assert(rest.subrange(0, pat@.len() as int) == s@.subrange(
                        i as int,
                        i + pat@.len(),
                    ));
                }
            }
            assert(rest.drop_first() == s@.subrange(i + 1, n as int));
            out.push(s[i]);
            assert(out@ + replace_all(s@.subrange(i + 1, n as int), pat@, v@) == before
                + replace_all(rest, pat@, v@));
            i += 1;
        }
    }
    assert(out@ + Seq::<char>::empty() == out@);
    out
}

pub open spec fn brace_token(token: Seq<char>) -> Seq<char> {
    seq!['{'] + token + seq!['}']
}

pub open spec fn bracket_token(token: Seq<char>) -> Seq<char> {
    seq!['['] + token + seq![']']
}

/// `{token}`, then `[token]`, replaced by the value throughout.
pub open spec fn with_token(source: Seq<char>, token: Seq<char>, value: Seq<char>) -> Seq<char> {
    replace_all(replace_all(source, brace_token(token), value), bracket_token(token), value)
}

fn replace_token_chars(source: &[char], token: &str, value: &[char]) -> (r: Vec<char>)
    ensures
        r@ == with_token(source@, token@, value@),
{
    let t = chars_of(token);
    let mut brace: Vec<char> = Vec::new();
    brace.push('{');
    append_chars(&mut brace, t.as_slice());
    brace.push('}');
    let mut bracket: Vec<char> = Vec::new();
    bracket.push('[');
    append_chars(&mut bracket, t.as_slice());
    bracket.push(']');
    assert(brace@ =~= brace_token(token@));
    assert(bracket@ =~= bracket_token(token@));
    let once = replace_chars(source, brace.as_slice(), value);
    replace_chars(once.as_slice(), bracket.as_slice(), value)
}

/// Replaces each `{token}` and each `[token]` in `source` with `value`.
pub fn replace_token(source: &str, token: &str, value: &str) -> (r: String)
    ensures
        r@ == with_token(source@, token@, value@),
{
    let s = chars_of(source);
    let v = chars_of(value);
    let out = replace_token_chars(s.as_slice(), token, v.as_slice());
    string_of(out.as_slice())
}

/// `value` without a trailing `.ext`, where `lower` (the lower-case form of
/// `value`) ends with `.` and `lower_ext` (that of `ext`).
pub open spec fn strip_with_lower(
    value: Seq<char>,
    lower: Seq<char>,
    ext: Seq<char>,
    lower_ext: Seq<char>,
) -> Seq<char> {
    let suffix = seq!['.'] + lower_ext;
    if ext.len() > 0 && suffix.len() <= lower.len() && lower.subrange(
        lower.len() - suffix.len(),
        lower.len() as int,
    ) == suffix && value.len() >= suffix.len() {
        value.subrange(0, value.len() - suffix.len())
    } else {
        value
    }
}

/// `value` without a trailing `.ext`, compared in lower case.
pub open spec fn without_extension(value: Seq<char>, ext: Seq<char>) -> Seq<char> {
    strip_with_lower(value, lower_of(value), ext, lower_of(ext))
}

fn strip_lowered_chars(value: &[char], lower: &[char], ext: &[char], lower_ext: &[char]) -> (r: Vec<
    char,
>)
    ensures
        r@ == strip_with_lower(value@, lower@, ext@, lower_ext@),
{
    if ext.len() == 0 {
        return crate::text::sub_chars(value, 0, value.len());
    }
    let mut suffix: Vec<char> = Vec::new();
    suffix.push('.');
    append_chars(&mut suffix, lower_ext);
    assert(suffix@ =~= seq!['.'] + lower_ext@);
    if suffix.len() <= lower.len() && value.len() >= suffix.len() {
        let start = lower.len() - suffix.len();
        if occurs_at_exec(lower, suffix.as_slice(), start) {
            return crate::text::sub_chars(value, 0, value.len() - suffix.len());
        }
    }
    crate::text::sub_chars(value, 0, value.len())
}

fn strip_extension_chars(value: &[char], ext: &[char]) -> (r: Vec<char>)
    ensures
        r@ == without_extension(value@, ext@),
{
    let lower = to_lower(value);
    let lext = to_lower(ext);
    strip_lowered_chars(value, lower.as_slice(), ext, lext.as_slice())
}

/// Removes a trailing `.ext` from `value`, given the lower-case forms of both:
/// where `lower_value` ends with `.` and `lower_ext`, as many characters as that
/// suffix holds are dropped from the end of `value`.
pub fn strip_extension_lowered(value: &str, lower_value: &str, ext: &str, lower_ext: &str) -> (r: String)
    ensures
        r@ == strip_with_lower(value@, lower_value@, ext@, lower_ext@),
{
    let v = chars_of(value);
    let l = chars_of(lower_value);
    let e = chars_of(ext);
    let le = chars_of(lower_ext);
    let out = strip_lowered_chars(v.as_slice(), l.as_slice(), e.as_slice(), le.as_slice());
    string_of(out.as_slice())
}

/// Removes a trailing `.ext` from `value`, where its lower-case form ends with
/// the lower-case extension.
pub fn strip_trailing_extension(value: &str, ext: &str) -> (r: String)
    ensures
        r@ == without_extension(value@, ext@),
{
    let v = chars_of(value);
    let e = chars_of(ext);
    let out = strip_extension_chars(v.as_slice(), e.as_slice());
    string_of(out.as_slice())
}

/// The output file's name without extension: the template with `{name}` (or
/// `[name]`), `{counter}`, `{date}`, `{time}` and `{ext}` filled in, trimmed and
/// made safe, a trailing `.ext` removed; where nothing is left, the input's
/// name made safe.
pub open spec fn output_name(
    template: Seq<char>,
    input_stem: Seq<char>,
    sequence: u32,
    ext: Seq<char>,
    date: Seq<char>,
    time: Seq<char>,
) -> Seq<char> {
    let a = with_token(template, "name"@, input_stem);
    let b = with_token(a, "counter"@, decimal_of(sequence as nat));
    let c = with_token(b, "date"@, date);
    let d = with_token(c, "time"@, time);
    let e = with_token(d, "ext"@, ext);
    let f = without_extension(sanitized(trim_both(e)), ext);
    if f.len() == 0 {
        sanitized(input_stem)
    } else {
        f
    }
}

/// Renders the output name template for one job; `date` and `time` are the
/// texts that stand for `{date}` and `{time}`.
pub fn render_output_name(
    template: &str,
    input_stem: &str,
    sequence: u32,
    ext: &str,
    date: &str,
    time: &str,
) -> (r: String)
    ensures
        r@ == output_name(template@, input_stem@, sequence, ext@, date@, time@),
{
    let t = chars_of(template);
    let stem = chars_of(input_stem);
    let counter = decimal_chars(sequence as u64);
    let d = chars_of(date);
    let tm = chars_of(time);
    let e = chars_of(ext);
    let a = replace_token_chars(t.as_slice(), "name", stem.as_slice());
    let b = replace_token_chars(a.as_slice(), "counter", counter.as_slice());
    let c = replace_token_chars(b.as_slice(), "date", d.as_slice());
    let dd = replace_token_chars(c.as_slice(), "time", tm.as_slice());
    let ee = replace_token_chars(dd.as_slice(), "ext", e.as_slice());
    let trimmed = trim_chars(ee.as_slice());
    let safe = sanitize_chars(trimmed.as_slice());
    let f = strip_extension_chars(safe.as_slice(), e.as_slice());
    if f.len() == 0 {
        let s = sanitize_chars(stem.as_slice());
        string_of(s.as_slice())
    } else {
        string_of(f.as_slice())
    }
}

/// A path that names a command to look up on the search path: not empty, and
/// without `/` or `\`.
pub fn is_bare_command(path: &str) -> (r: bool)
    ensures
        r == (path@.len() > 0 && !path@.contains('/') && !path@.contains('\\')),
{
    let p = chars_of(path);
    p.len() > 0 && !crate::text::has_char(p.as_slice(), '/') && !crate::text::has_char(
        p.as_slice(),
        '\\',
    )
}

/// The file name tried for a taken output path: `<stem>-<index>`, its
/// extension then set to `ext` as `PathBuf::set_extension` sets it (what
/// follows the last `.` that is not the first character is replaced, or
/// `.ext` added); with no `ext` the name stays as it is.
pub open spec fn candidate_name(stem: Seq<char>, ext: Seq<char>, index: u64) -> Seq<char> {
    let name = stem + seq!['-'] + decimal_of(index as nat);
    if ext.len() == 0 {
        name
    } else {
        with_extension(name, ext)
    }
}

/// The index of the last `.` in `s`, or `-1` where there is none.
pub open spec fn last_dot(s: Seq<char>) -> int
    decreases s.len(),
{
    if s.len() == 0 {
        -1
    } else if s.last() == '.' {
        s.len() - 1
    } else {
        last_dot(s.drop_last())
    }
}

pub open spec fn with_extension(name: Seq<char>, ext: Seq<char>) -> Seq<char> {
    let d = last_dot(name);
    if d > 0 {
        name.subrange(0, d) + seq!['.'] + ext
    } else {
        name + seq!['.'] + ext
    }
}

proof fn lemma_last_dot_bounds(s: Seq<char>)
    ensures
        -1 <= last_dot(s) < s.len(),
    decreases s.len(),
{
    if s.len() > 0 && s.last() != '.' {
        lemma_last_dot_bounds(s.drop_last());
    }
}

/// The name to try for the `index`-th alternative to a taken output file.
pub fn candidate_file_name(stem: &str, ext: &str, index: u64) -> (r: String)
    ensures
        r@ == candidate_name(stem@, ext@, index),
{
    let mut name = chars_of(stem);
    name.push('-');
    let digits = decimal_chars(index);
    append_chars(&mut name, digits.as_slice());
    assert(name@ =~= stem@ + seq!['-'] + decimal_of(index as nat));
    let e = chars_of(ext);
    if e.len() == 0 {
        return string_of(name.as_slice());
    }
    let n = name.len();
    let mut j: usize = n;
    assert(name@.subrange(0, n as int) == name@);
    while j > 0 && name[j - 1] != '.'
        invariant
            n == name@.len(),
            j <= n,
            last_dot(name@) == last_dot(name@.subrange(0, j as int)),
        decreases j,
    {
        assert(name@.subrange(0, j as int).drop_last() == name@.subrange(0, j - 1));
        j -= 1;
    }
    proof {
        if j > 0 {
            assert(name@.subrange(0, j as int).last() == name@[j - 1]);
            assert(last_dot(name@) == j - 1);
        } else {
            assert(name@.subrange(0, 0).len() == 0);
            assert(last_dot(name@) == -1);
        }
        lemma_last_dot_bounds(name@);
    }
    let mut out = if j > 1 {
        crate::text::sub_chars(name.as_slice(), 0, j - 1)
    } else {
        crate::text::sub_chars(name.as_slice(), 0, n)
    };
    out.push('.');
    append_chars(&mut out, e.as_slice());
    string_of(out.as_slice())
}


/// `s` holds no `/`, `\` or `:`.
pub open spec fn no_separator(s: Seq<char>) -> bool {
    forall|i: int| 0 <= i < s.len() ==> !is_separator(#[trigger] s[i])
}

proof fn lemma_trim_start_keeps(s: Seq<char>)
    requires
        no_separator(s),
    ensures
        no_separator(trim_start(s)),
    decreases s.len(),
{
    if s.len() > 0 && crate::text::is_space(s[0]) {
        assert forall|i: int| 0 <= i < s.drop_first().len() implies !is_separator(
            #[trigger] s.drop_first()[i],
        ) by {
            assert(s.drop_first()[i] == s[i + 1]);
        }
        lemma_trim_start_keeps(s.drop_first());
    }
}

proof fn lemma_trim_end_keeps(s: Seq<char>)
    requires
        no_separator(s),
    ensures
        no_separator(trim_end(s)),
    decreases s.len(),
{
    if s.len() > 0 && crate::text::is_space(s.last()) {
        assert forall|i: int| 0 <= i < s.drop_last().len() implies !is_separator(
            #[trigger] s.drop_last()[i],
        ) by {
            assert(s.drop_last()[i] == s[i]);
        }
        lemma_trim_end_keeps(s.drop_last());
    }
}

/// A name made safe holds no `/`, `\` or `:`.
pub proof fn lemma_sanitized_has_no_separator(s: Seq<char>)
    ensures
        no_separator(sanitized(s)),
{
    let d = dash_separators(s);
    assert(no_separator(d));
    lemma_trim_start_keeps(d);
    lemma_trim_end_keeps(trim_start(d));
}

/// A rendered output name holds no `/`, `\` or `:`, whatever the template,
/// the input's name, the date and the time.
pub proof fn lemma_output_name_is_safe(
    template: Seq<char>,
    input_stem: Seq<char>,
    sequence: u32,
    ext: Seq<char>,
    date: Seq<char>,
    time: Seq<char>,
)
    ensures
        no_separator(output_name(template, input_stem, sequence, ext, date, time)),
{
    let a = with_token(template, "name"@, input_stem);
    let b = with_token(a, "counter"@, decimal_of(sequence as nat));
    let c = with_token(b, "date"@, date);
    let d = with_token(c, "time"@, time);
    let e = with_token(d, "ext"@, ext);
    let safe = sanitized(trim_both(e));
    lemma_sanitized_has_no_separator(trim_both(e));
    lemma_sanitized_has_no_separator(input_stem);
    let f = without_extension(safe, ext);
    assert(no_separator(f)) by {
        assert forall|i: int| 0 <= i < f.len() implies !is_separator(#[trigger] f[i]) by {
            assert(f[i] == safe[i]);
        }
    }
}

/// `taken` answered that a name with the characters `n` is taken.
pub open spec fn reported_taken<F: Fn(&String) -> bool>(taken: F, n: Seq<char>) -> bool {
    exists|s: &String| s@ == n && #[trigger] taken.ensures((s,), true)
}

/// The name for the output file: `file_name` where `taken` does not report it
/// taken, else the first of `candidate_name(stem, ext, 1)`, `candidate_name(stem,
/// ext, 2)`, ... that `taken` does not report taken. Every name before the one
/// returned was asked about and reported taken; `None` only where every name
/// was reported taken.
pub fn ensure_unique_path<F: Fn(&String) -> bool>(
    file_name: String,
    stem: &str,
    ext: &str,
    taken: F,
) -> (r: Option<String>)
    requires
        forall|s: &String| taken.requires((s,)),
    ensures
        r matches Some(name) ==> taken.ensures((&name,), false),
        r matches Some(name) ==> (name@ == file_name@ || (reported_taken(taken, file_name@) && exists|k: u64|
            1 <= k && name@ == candidate_name(stem@, ext@, k) && forall|j: u64|
                1 <= j < k ==> reported_taken(taken, #[trigger] candidate_name(stem@, ext@, j)))),
        r is None ==> reported_taken(taken, file_name@) && forall|k: u64|
            1 <= k ==> reported_taken(taken, #[trigger] candidate_name(stem@, ext@, k)),
{
    if !taken(&file_name) {
        return Some(file_name);
    }
    assert(reported_taken(taken, file_name@));
    let mut index: u64 = 1;
    loop
        invariant
            forall|s: &String| taken.requires((s,)),
            1 <= index,
            reported_taken(taken, file_name@),
            forall|j: u64| 1 <= j < index ==> reported_taken(taken, #[trigger] candidate_name(stem@, ext@, j)),
        decreases u64::MAX - index,
    {
        let candidate = candidate_file_name(stem, ext, index);
        if !taken(&candidate) {
            return Some(candidate);
        }
        assert(reported_taken(taken, candidate_name(stem@, ext@, index)));
        if index == u64::MAX {
            assert forall|k: u64| 1 <= k implies reported_taken(taken, #[trigger] candidate_name(stem@, ext@, k)) by {
                if k < index {
                }
            }
            return None;
        }
        index += 1;
    }
}

} // verus!

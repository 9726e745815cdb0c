use vstd::prelude::*;

verus! {

broadcast use vstd::string::axiom_spec_iter;

/// The characters of `s`, in order.
pub fn chars_of(s: &str) -> (r: Vec<char>)
    ensures
        r@ == s@,
{
    let mut v: Vec<char> = Vec::new();
    for c in it: s.chars()
        invariant
            it.seq() == s@,
            v@ == it.seq().subrange(0, it.index()),
    {
        v.push(c);
    }
    v
}

pub open spec fn is_digit(c: char) -> bool {
    '0' <= c && c <= '9'
}

pub open spec fn digit_value(c: char) -> nat {
    ((c as u32) - ('0' as u32)) as nat
}

/// The value of a run of decimal digits, most significant first.
pub open spec fn digits_value(d: Seq<char>) -> nat
    decreases d.len(),
{
    if d.len() == 0 {
        0
    } else {
        digits_value(d.drop_last()) * 10 + digit_value(d.last())
    }
}


/// The maximal runs of ASCII digits in `s`, left to right.
pub open spec fn digit_runs(s: Seq<char>) -> Seq<Seq<char>>
    decreases s.len(),
{
    if s.len() == 0 {
        seq![]
    } else {
        let prev = digit_runs(s.drop_last());
        let c = s.last();
        if !is_digit(c) {
            prev
        } else if s.len() >= 2 && is_digit(s[s.len() - 2]) && prev.len() > 0 {
            prev.update(prev.len() - 1, prev.last().push(c))
        } else {
            prev.push(seq![c])
        }
    }
}

/// The values of the runs that fit in a `usize`, in order.
pub open spec fn fitting_values(runs: Seq<Seq<char>>) -> Seq<usize>
    decreases runs.len(),
{
    if runs.len() == 0 {
        seq![]
    } else {
        let prev = fitting_values(runs.drop_last());
        if digits_value(runs.last()) <= usize::MAX {
            prev.push(digits_value(runs.last()) as usize)
        } else {
            prev
        }
    }
}

/// The unsigned integers embedded in `s`: each maximal digit run, read in decimal;
/// a run too large for a `usize` is skipped.
pub open spec fn numbers_of(s: Seq<char>) -> Seq<usize> {
    fitting_values(digit_runs(s))
}

/// Embedded integers of a character sequence.
pub fn numbers_in(s: &[char]) -> (r: Vec<usize>)
    ensures
        r@ == numbers_of(s@),
{
    let mut numbers: Vec<usize> = Vec::new();
    let mut cur: usize = 0;
    let mut fits = true;
    let mut in_run = false;
    let n = s.len();
    let mut i: usize = 0;
    while i < n
        invariant
            n == s@.len(),
            i <= n,
            in_run == (i > 0 && is_digit(s@[i - 1])),
            in_run ==> digit_runs(s@.subrange(0, i as int)).len() > 0,
            in_run ==> (fits == (digits_value(digit_runs(s@.subrange(0, i as int)).last()) <= usize::MAX)),
            in_run && fits ==> cur == digits_value(digit_runs(s@.subrange(0, i as int)).last()),
            in_run ==> numbers@ == fitting_values(digit_runs(s@.subrange(0, i as int)).drop_last()),
            !in_run ==> numbers@ == fitting_values(digit_runs(s@.subrange(0, i as int))),
        decreases n - i,
    {
        let c = s[i];
        let ghost pre = s@.subrange(0, i as int);
        let ghost post = s@.subrange(0, i + 1);
        assert(post.drop_last() == pre);
        assert(post.last() == c);
        if '0' <= c && c <= '9' {
            let d = (c as u32 - '0' as u32) as usize;
            assert(d == digit_value(c));
            if in_run {
                assert(pre.len() >= 1 && pre.last() == s@[i - 1]);
                let ghost run = digit_runs(pre).last();
                assert(digit_runs(post).last() == run.push(c));
                assert(run.push(c).drop_last() == run);
                assert(digit_runs(post).drop_last() == digit_runs(pre).drop_last());
                if fits && cur <= (usize::MAX - d) / 10 {
                    cur = cur * 10 + d;
                } else {
                    fits = false;
                }
            } else {
                assert(digit_runs(post) == digit_runs(pre).push(seq![c]));
                assert(digit_runs(post).drop_last() == digit_runs(pre));
                assert(seq![c].drop_last() == Seq::<char>::empty());
                assert(digits_value(seq![c].drop_last()) == 0);
                assert(digits_value(seq![c]) == d);
                cur = d;
                fits = true;
            }
            in_run = true;
        } else {
            assert(digit_runs(post) == digit_runs(pre));
            if in_run {
                let ghost runs = digit_runs(pre);
                assert(runs == runs.drop_last().push(runs.last()));
                if fits {
                    numbers.push(cur);
                }
            }
            in_run = false;
        }
        i += 1;
    }
    assert(s@.subrange(0, n as int) == s@);
    if in_run {
        let ghost runs = digit_runs(s@);
        assert(runs == runs.drop_last().push(runs.last()));
        if fits {
            numbers.push(cur);
        }
    }
    numbers
}

/// The unsigned integers embedded in `line`, left to right: each maximal run of
/// ASCII digits read in decimal, any other character a separator; a run whose
/// value does not fit a `usize` is skipped.
pub fn extract_numbers(line: &str) -> (r: Vec<usize>)
    ensures
        r@ == numbers_of(line@),
{
    let chars = chars_of(line);
    numbers_in(chars.as_slice())
}


/// `pat` occurs in `s` starting at index `i`.
pub open spec fn occurs_at(s: Seq<char>, pat: Seq<char>, i: int) -> bool {
    0 <= i && i + pat.len() <= s.len() && s.subrange(i, i + pat.len()) == pat
}

pub open spec fn contains_seq(s: Seq<char>, pat: Seq<char>) -> bool {
    exists|i: int| occurs_at(s, pat, i)
}

pub open spec fn starts_with_seq(s: Seq<char>, pat: Seq<char>) -> bool {
    occurs_at(s, pat, 0)
}

/// Whether `pat` occurs in `s` at index `i`.
pub fn occurs_at_exec(s: &[char], pat: &[char], i: usize) -> (r: bool)
    ensures
        r == occurs_at(s@, pat@, i as int),
{
    if i > s.len() || pat.len() > s.len() - i {
        return false;
    }
    let mut k: usize = 0;
    while k < pat.len()
        invariant
            s@.len() <= usize::MAX,
            i + pat@.len() <= s@.len(),
            k <= pat@.len(),
            forall|j: int| 0 <= j < k ==> s@[i + j] == pat@[j],
        decreases pat@.len() - k,
    {
        if s[i + k] != pat[k] {
            assert(s@.subrange(i as int, i + pat@.len())[k as int] != pat@[k as int]);
            return false;
        }
        k += 1;
    }
    assert(s@.subrange(i as int, i + pat@.len()) == pat@);
    true
}

/// Whether `pat` occurs anywhere in `s`.
pub fn contains_chars(s: &[char], pat: &[char]) -> (r: bool)
    ensures
        r == contains_seq(s@, pat@),
{
    let mut i: usize = 0;
    while i < s.len()
        invariant
            i <= s@.len(),
            forall|j: int| 0 <= j < i ==> !occurs_at(s@, pat@, j),
        decreases s@.len() - i,
    {
        if occurs_at_exec(s, pat, i) {
            return true;
        }
        i += 1;
    }
    if occurs_at_exec(s, pat, i) {
        return true;
    }
    assert forall|j: int| !occurs_at(s@, pat@, j) by {
        if 0 <= j && j <= i {
        }
    }
    false
}

/// Whether `s` starts with `pat`.
pub fn starts_with_chars(s: &[char], pat: &[char]) -> (r: bool)
    ensures
        r == starts_with_seq(s@, pat@),
{
    occurs_at_exec(s, pat, 0)
}

/// Whether `c` occurs in `s`.
pub fn has_char(s: &[char], c: char) -> (r: bool)
    ensures
        r == s@.contains(c),
{
    let mut i: usize = 0;
    while i < s.len()
        invariant
            i <= s@.len(),
            forall|j: int| 0 <= j < i ==> s@[j] != c,
        decreases s@.len() - i,
    {
        if s[i] == c {
            return true;
        }
        i += 1;
    }
    false
}

/// Unicode's White_Space property, which `char::is_whitespace` follows.
pub open spec fn is_space(c: char) -> bool {
    let u = c as u32;
    (0x9 <= u && u <= 0xd) || u == 0x20 || u == 0x85 || u == 0xa0 || u == 0x1680 || (0x2000 <= u
        && u <= 0x200a) || u == 0x2028 || u == 0x2029 || u == 0x202f || u == 0x205f || u == 0x3000
}

pub fn is_space_exec(c: char) -> (r: bool)
    ensures
        r == is_space(c),
{
    let u = c as u32;
    (0x9 <= u && u <= 0xd) || u == 0x20 || u == 0x85 || u == 0xa0 || u == 0x1680 || (0x2000 <= u
        && u <= 0x200a) || u == 0x2028 || u == 0x2029 || u == 0x202f || u == 0x205f || u == 0x3000
}

/// The maximal runs of non-whitespace characters in `s`, left to right.
pub open spec fn words_of(s: Seq<char>) -> Seq<Seq<char>>
    decreases s.len(),
{
    if s.len() == 0 {
        seq![]
    } else {
        let prev = words_of(s.drop_last());
        let c = s.last();
        if is_space(c) {
            prev
        } else if s.len() >= 2 && !is_space(s[s.len() - 2]) && prev.len() > 0 {
            prev.update(prev.len() - 1, prev.last().push(c))
        } else {
            prev.push(seq![c])
        }
    }
}

/// `s` split at whitespace, as `str::split_whitespace` does.
pub fn split_words(s: &[char]) -> (r: Vec<Vec<char>>)
    ensures
        r@.len() == words_of(s@).len(),
        forall|k: int| 0 <= k < r@.len() ==> #[trigger] r@[k]@ == words_of(s@)[k],
{
    let mut words: Vec<Vec<char>> = Vec::new();
    let mut cur: Vec<char> = Vec::new();
    let mut in_word = false;
    let n = s.len();
    let mut i: usize = 0;
    while i < n
        invariant
            n == s@.len(),
            i <= n,
            in_word == (i > 0 && !is_space(s@[i - 1])),
            in_word ==> words_of(s@.subrange(0, i as int)).len() > 0,
            in_word ==> cur@ == words_of(s@.subrange(0, i as int)).last(),
            in_word ==> words@.len() + 1 == words_of(s@.subrange(0, i as int)).len(),
            !in_word ==> words@.len() == words_of(s@.subrange(0, i as int)).len(),
            forall|k: int|
                0 <= k < words@.len() ==> #[trigger] words@[k]@ == words_of(
                    s@.subrange(0, i as int),
                )[k],
        decreases n - i,
    {
        let c = s[i];
        let ghost pre = s@.subrange(0, i as int);
        let ghost post = s@.subrange(0, i + 1);
        assert(post.drop_last() == pre);
        assert(post.last() == c);
        if !is_space_exec(c) {
            if in_word {
                assert(pre.len() >= 1 && pre.last() == s@[i - 1]);
                assert(words_of(post) == words_of(pre).update(
                    words_of(pre).len() - 1,
                    cur@.push(c),
                ));
                cur.push(c);
            } else {
                assert(words_of(post) == words_of(pre).push(seq![c]));
                cur = Vec::new();
                cur.push(c);
                assert(cur@ == seq![c]);
            }
            in_word = true;
        } else {
            assert(words_of(post) == words_of(pre));
            if in_word {
                words.push(cur);
                cur = Vec::new();
            }
            in_word = false;
        }
        i += 1;
    }
    assert(s@.subrange(0, n as int) == s@);
    if in_word {
        words.push(cur);
    }
    words
}


/// The pieces of `s` between newline characters; there is always at least one.
pub open spec fn nl_pieces(s: Seq<char>) -> Seq<Seq<char>>
    decreases s.len(),
{
    if s.len() == 0 {
        seq![seq![]]
    } else {
        let p = nl_pieces(s.drop_last());
        if s.last() == '\n' {
            p.push(seq![])
        } else {
            p.update(p.len() - 1, p.last().push(s.last()))
        }
    }
}

proof fn lemma_nl_pieces_len(s: Seq<char>)
    ensures
        nl_pieces(s).len() >= 1,
    decreases s.len(),
{
    if s.len() > 0 {
        lemma_nl_pieces_len(s.drop_last());
    }
}

pub open spec fn strip_cr(l: Seq<char>) -> Seq<char> {
    if l.len() > 0 && l.last() == '\r' {
        l.drop_last()
    } else {
        l
    }
}

/// The lines of `s`, as `str::lines` gives them: split at `\n`, a `\r` before
/// the `\n` removed, and no empty line after a final `\n`.
pub open spec fn lines_of(s: Seq<char>) -> Seq<Seq<char>> {
    let p = nl_pieces(s);
    let init = p.drop_last().map_values(|l: Seq<char>| strip_cr(l));
    if p.last().len() == 0 {
        init
    } else {
        init.push(p.last())
    }
}

/// The lines of a character sequence.
pub fn split_lines(s: &[char]) -> (r: Vec<Vec<char>>)
    ensures
        r@.len() == lines_of(s@).len(),
        forall|k: int| 0 <= k < r@.len() ==> #[trigger] r@[k]@ == lines_of(s@)[k],
{
    let mut lines: Vec<Vec<char>> = Vec::new();
    let mut cur: Vec<char> = Vec::new();
    let n = s.len();
    let mut i: usize = 0;
    while i < n
        invariant
            n == s@.len(),
            i <= n,
            nl_pieces(s@.subrange(0, i as int)).len() == lines@.len() + 1,
            cur@ == nl_pieces(s@.subrange(0, i as int)).last(),
            forall|k: int|
                0 <= k < lines@.len() ==> #[trigger] lines@[k]@ == strip_cr(
                    nl_pieces(s@.subrange(0, i as int))[k],
                ),
        decreases n - i,
    {
        let c = s[i];
        let ghost pre = s@.subrange(0, i as int);
        let ghost post = s@.subrange(0, i + 1);
        assert(post.drop_last() == pre);
        assert(post.last() == c);
        if c == '\n' {
            let mut line = cur;
            let len = line.len();
            if len > 0 && line[len - 1] == '\r' {
                line.pop();
            }
            lines.push(line);
            cur = Vec::new();
        } else {
            cur.push(c);
        }
        i += 1;
    }
    assert(s@.subrange(0, n as int) == s@);
    proof {
        lemma_nl_pieces_len(s@);
    }
    if cur.len() > 0 {
        lines.push(cur);
    }
    lines
}

pub open spec fn all_digits(s: Seq<char>) -> bool {
    forall|i: int| 0 <= i < s.len() ==> is_digit(#[trigger] s[i])
}

/// What `str::parse` makes of `tok` as an unsigned integer before the range
/// check: an optional `+`, then one or more ASCII digits.
pub open spec fn sign_stripped(tok: Seq<char>) -> Seq<char> {
    if tok.len() > 0 && tok[0] == '+' {
        tok.drop_first()
    } else {
        tok
    }
}

pub open spec fn unsigned_value(tok: Seq<char>) -> Option<nat> {
    let d = sign_stripped(tok);
    if d.len() > 0 && all_digits(d) {
        Some(digits_value(d))
    } else {
        None
    }
}

pub open spec fn parsed_u64(tok: Seq<char>) -> Option<u64> {
    match unsigned_value(tok) {
        Some(v) => if v <= u64::MAX {
            Some(v as u64)
        } else {
            None
        },
        None => None,
    }
}

proof fn lemma_digits_value_prefix(s: Seq<char>, k: int)
    requires
        0 <= k <= s.len(),
    ensures
        digits_value(s.subrange(0, k)) <= digits_value(s),
    decreases s.len(),
{
    if k < s.len() {
        assert(s.drop_last().subrange(0, k) == s.subrange(0, k));
        lemma_digits_value_prefix(s.drop_last(), k);
    } else {
        assert(s.subrange(0, k) == s);
    }
}

/// A token read as a `u64`, as `str::parse::<u64>` reads it.
pub fn parse_u64(tok: &[char]) -> (r: Option<u64>)
    ensures
        r == parsed_u64(tok@),
{
    let n = tok.len();
    let start: usize = if n > 0 && tok[0] == '+' {
        1
    } else {
        0
    };
    let ghost d = sign_stripped(tok@);
    assert(d == tok@.subrange(start as int, n as int));
    if start == n {
        return None;
    }
    let mut value: u64 = 0;
    let mut i: usize = start;
    while i < n
        invariant
            n == tok@.len(),
            start <= i <= n,
            d == sign_stripped(tok@),
            d == tok@.subrange(start as int, n as int),
            forall|j: int| start <= j < i ==> is_digit(tok@[j]),
            value == digits_value(tok@.subrange(start as int, i as int)),
        decreases n - i,
    {
        let c = tok[i];
        let ghost pre = tok@.subrange(start as int, i as int);
        let ghost post = tok@.subrange(start as int, i + 1);
        assert(post.drop_last() == pre);
        if !('0' <= c && c <= '9') {
            assert(d[i - start] == tok@[i as int]);
            assert(!all_digits(d));
            return None;
        }
        let dg = (c as u32 - '0' as u32) as u64;
        if value > (u64::MAX - dg) / 10 {
            proof {
                assert(post.last() == c);
                assert(digits_value(post) == value * 10 + dg);
                assert(value * 10 + dg > u64::MAX) by (nonlinear_arith)
                    requires
                        value > (u64::MAX - dg) / 10,
                        dg <= 9,
                ;
                if all_digits(d) {
                    assert(d.subrange(0, i + 1 - start) == post);
                    lemma_digits_value_prefix(d, i + 1 - start);
                }
            }
            return None;
        }
        value = value * 10 + dg;
        i += 1;
    }
    assert(tok@.subrange(start as int, n as int) == d);
    Some(value)
}

pub open spec fn ascii_fold(c: char) -> int {
    if 'A' <= c && c <= 'Z' {
        (c as u32) + 32
    } else {
        (c as u32) as int
    }
}

/// `a` and `b` are equal but for the case of ASCII letters.
pub open spec fn eq_ascii_nocase(a: Seq<char>, b: Seq<char>) -> bool {
    a.len() == b.len() && forall|i: int| 0 <= i < a.len() ==> ascii_fold(a[i]) == ascii_fold(b[i])
}

pub fn eq_ignore_ascii_case(a: &[char], b: &[char]) -> (r: bool)
    ensures
        r == eq_ascii_nocase(a@, b@),
{
    if a.len() != b.len() {
        return false;
    }
    let mut i: usize = 0;
    while i < a.len()
        invariant
            a@.len() == b@.len(),
            i <= a@.len(),
            forall|j: int| 0 <= j < i ==> ascii_fold(a@[j]) == ascii_fold(b@[j]),
        decreases a@.len() - i,
    {
        let x = a[i];
        let y = b[i];
        let fx: u32 = if 'A' <= x && x <= 'Z' {
            x as u32 + 32
        } else {
            x as u32
        };
        let fy: u32 = if 'A' <= y && y <= 'Z' {
            y as u32 + 32
        } else {
            y as u32
        };
        if fx != fy {
            return false;
        }
        i += 1;
    }
    true
}

/// The text that `str::to_lowercase` makes of a string, by Unicode's case mapping.
pub uninterp spec fn lower_of(s: Seq<char>) -> Seq<char>;

/// Relies on `str::to_lowercase`: the lower-case form of the characters, which
/// depends on them alone.
#[verifier::external_body]
pub(crate) fn to_lower(s: &[char]) -> (r: Vec<char>)
    ensures
        r@ == lower_of(s@),
{
    let text: String = s.iter().collect();
    text.to_lowercase().chars().collect()
}


/// Relies on `String`'s `FromIterator<char>`: the string holds the characters in order.
#[verifier::external_body]
pub(crate) fn string_of(v: &[char]) -> (r: String)
    ensures
        r@ == v@,
{
    v.iter().collect()
}

/// The index of the first `c` in `s`, or the length of `s` where there is none.
pub open spec fn first_pos(s: Seq<char>, c: char) -> int
    decreases s.len(),
{
    if s.len() == 0 {
        0
    } else if s[0] == c {
        0
    } else {
        1 + first_pos(s.drop_first(), c)
    }
}

pub proof fn lemma_first_pos_absent(s: Seq<char>, c: char)
    requires
        first_pos(s, c) == s.len(),
    ensures
        !s.contains(c),
    decreases s.len(),
{
    if s.len() > 0 {
        lemma_first_pos_absent(s.drop_first(), c);
        assert forall|k: int| 0 <= k < s.len() implies s[k] != c by {
            if k > 0 {
                assert(s.drop_first()[k - 1] == s[k]);
            }
        }
    }
}

pub proof fn lemma_first_pos_found(s: Seq<char>, c: char)
    requires
        first_pos(s, c) < s.len(),
    ensures
        s.contains(c),
        0 <= first_pos(s, c),
    decreases s.len(),
{
    if s.len() > 0 && s[0] != c {
        lemma_first_pos_found(s.drop_first(), c);
        let k = choose|k: int| 0 <= k < s.drop_first().len() && s.drop_first()[k] == c;
        assert(s[k + 1] == c);
    } else {
        assert(s[0] == c);
    }
}

pub fn find_char(s: &[char], c: char) -> (r: usize)
    ensures
        r == first_pos(s@, c),
        r <= s@.len(),
{
    let mut i: usize = 0;
    assert(s@.subrange(0, s@.len() as int) == s@);
    while i < s.len()
        invariant
            i <= s@.len(),
            first_pos(s@, c) == i + first_pos(s@.subrange(i as int, s@.len() as int), c),
        decreases s@.len() - i,
    {
        let ghost rest = s@.subrange(i as int, s@.len() as int);
        if s[i] == c {
            assert(rest[0] == c);
            return i;
        }
        assert(rest.drop_first() == s@.subrange(i + 1, s@.len() as int));
        i += 1;
    }
    assert(s@.subrange(i as int, s@.len() as int).len() == 0);
    i
}

pub open spec fn join_lines(ls: Seq<Seq<char>>) -> Seq<char>
    decreases ls.len(),
{
    if ls.len() == 0 {
        seq![]
    } else if ls.len() == 1 {
        ls[0]
    } else {
        join_lines(ls.drop_last()) + seq!['\n'] + ls.last()
    }
}


/// The characters of `s` from index `a` up to `b`.
pub fn sub_chars(s: &[char], a: usize, b: usize) -> (r: Vec<char>)
    requires
        a <= b <= s@.len(),
    ensures
        r@ == s@.subrange(a as int, b as int),
{
    let mut v: Vec<char> = Vec::new();
    let mut i: usize = a;
    while i < b
        invariant
            a <= i <= b <= s@.len(),
            v@ == s@.subrange(a as int, i as int),
        decreases b - i,
    {
        v.push(s[i]);
        i += 1;
    }
    v
}


/// Appends the characters of `s` to `acc`.
pub fn append_chars(acc: &mut Vec<char>, s: &[char])
    ensures
        final(acc)@ == old(acc)@ + s@,
{
    let mut i: usize = 0;
    while i < s.len()
        invariant
            i <= s@.len(),
            acc@ == old(acc)@ + s@.subrange(0, i as int),
        decreases s@.len() - i,
    {
        acc.push(s[i]);
        i += 1;
    }
    assert(s@.subrange(0, s@.len() as int) == s@);
}


/// The lines joined with a newline between each two.
pub fn join_newlines(lines: &Vec<Vec<char>>, Ghost(ls): Ghost<Seq<Seq<char>>>) -> (r: Vec<char>)
    requires
        lines@.len() == ls.len(),
        forall|k: int| 0 <= k < lines@.len() ==> #[trigger] lines@[k]@ == ls[k],
    ensures
        r@ == join_lines(ls),
{
    let mut acc: Vec<char> = Vec::new();
    let mut k: usize = 0;
    while k < lines.len()
        invariant
            lines@.len() == ls.len(),
            forall|j: int| 0 <= j < lines@.len() ==> #[trigger] lines@[j]@ == ls[j],
            k <= ls.len(),
            acc@ == join_lines(ls.take(k as int)),
        decreases ls.len() - k,
    {
        assert(ls.take(k + 1).drop_last() == ls.take(k as int));
        assert(ls.take(k + 1).last() == ls[k as int]);
        assert(lines@[k as int]@ == ls[k as int]);
        if k > 0 {
            acc.push('\n');
        }
        append_chars(&mut acc, lines[k].as_slice());
        proof {
            if k == 0 {
                assert(ls.take(1)[0] == ls[0]);
                assert(join_lines(ls.take(1)) == ls[0]);
                assert(acc@ == Seq::<char>::empty() + ls[0]);
            }
        }
        k += 1;
    }
    assert(ls.take(ls.len() as int) == ls);
    acc
}

pub open spec fn digit_char(d: nat) -> char {
    if d == 0 {
        '0'
    } else if d == 1 {
        '1'
    } else if d == 2 {
        '2'
    } else if d == 3 {
        '3'
    } else if d == 4 {
        '4'
    } else if d == 5 {
        '5'
    } else if d == 6 {
        '6'
    } else if d == 7 {
        '7'
    } else if d == 8 {
        '8'
    } else {
        '9'
    }
}

pub fn digit_char_exec(d: u64) -> (r: char)
    requires
        d < 10,
    ensures
        r == digit_char(d as nat),
{
    if d == 0 {
        '0'
    } else if d == 1 {
        '1'
    } else if d == 2 {
        '2'
    } else if d == 3 {
        '3'
    } else if d == 4 {
        '4'
    } else if d == 5 {
        '5'
    } else if d == 6 {
        '6'
    } else if d == 7 {
        '7'
    } else if d == 8 {
        '8'
    } else {
        '9'
    }
}

/// The decimal digits of `n`, without leading zeros.
pub open spec fn decimal_of(n: nat) -> Seq<char>
    decreases n,
{
    if n < 10 {
        seq![digit_char(n)]
    } else {
        decimal_of(n / 10).push(digit_char(n % 10))
    }
}

pub fn decimal_chars(n: u64) -> (r: Vec<char>)
    ensures
        r@ == decimal_of(n as nat),
    decreases n,
{
    if n < 10 {
        let mut v: Vec<char> = Vec::new();
        v.push(digit_char_exec(n));
        v
    } else {
        let mut v = decimal_chars(n / 10);
        v.push(digit_char_exec(n % 10));
        v
    }
}

} // verus!

use vstd::prelude::*;

use crate::text::{
    all_digits, chars_of, contains_chars, contains_seq, eq_ascii_nocase, eq_ignore_ascii_case,
    find_char, first_pos, occurs_at_exec, sub_chars, has_char, is_digit, is_space, is_space_exec, join_lines, lines_of,
    lower_of, numbers_in, numbers_of, parse_u64, parsed_u64, split_lines, split_words,
    starts_with_chars, starts_with_seq, string_of, to_lower, words_of, append_chars,
};

verus! {

/// One frame of an animation, as the container inspection reports it.
#[derive(Clone, Copy, Debug, PartialEq, Eq, Structural)]
pub struct FrameInfo {
    pub offset_x: usize,
    pub offset_y: usize,
    pub duration_ms: u64,
    pub dispose_background: bool,
    pub blend: bool,
}

/// What a frame is taken to be where the report says nothing of it.
pub open spec fn default_frame() -> FrameInfo {
    FrameInfo {
        offset_x: 0,
        offset_y: 0,
        duration_ms: 33,
        dispose_background: false,
        blend: true,
    }
}

impl Default for FrameInfo {
    fn default() -> (r: Self)
        ensures
            r == default_frame(),
    {
        FrameInfo {
            offset_x: 0,
            offset_y: 0,
            duration_ms: 33,
            dispose_background: false,
            blend: true,
        }
    }
}

pub open spec fn parsed_usize(tok: Seq<char>) -> Option<usize> {
    match parsed_u64(tok) {
        Some(v) => if v <= usize::MAX {
            Some(v as usize)
        } else {
            None
        },
        None => None,
    }
}

fn parse_usize(tok: &[char]) -> (r: Option<usize>)
    ensures
        r == parsed_usize(tok@),
{
    match parse_u64(tok) {
        Some(v) => if v <= usize::MAX as u64 {
            Some(v as usize)
        } else {
            None
        },
        None => None,
    }
}

/// The columns of a table row: its words, without a leading row number
/// (`3:` or `3 :`).
pub open spec fn row_columns(line: Seq<char>) -> Seq<Seq<char>> {
    let w = words_of(line);
    if w.len() > 0 && w[0].len() > 0 && w[0].last() == ':' {
        w.drop_first()
    } else if w.len() > 1 && all_digits(w[0]) && w[1] == seq![':'] {
        w.subrange(2, w.len() as int)
    } else {
        w
    }
}

/// A row of the frame table: width, height, alpha, x offset, y offset, duration,
/// disposal, blending. A row with fewer columns, a number that does not parse,
/// or a zero width or height gives no frame.
pub open spec fn table_row(line: Seq<char>) -> Option<FrameInfo> {
    let p = row_columns(line);
    if p.len() >= 8 && parsed_usize(p[0]) is Some && parsed_usize(p[1]) is Some && parsed_usize(
        p[3],
    ) is Some && parsed_usize(p[4]) is Some && parsed_u64(p[5]) is Some && parsed_usize(p[0])->0
        != 0 && parsed_usize(p[1])->0 != 0 {
        Some(
            FrameInfo {
                offset_x: parsed_usize(p[3])->0,
                offset_y: parsed_usize(p[4])->0,
                duration_ms: parsed_u64(p[5])->0,
                dispose_background: eq_ascii_nocase(p[6], "background"@),
                blend: eq_ascii_nocase(p[7], "yes"@),
            },
        )
    } else {
        None
    }
}

/// How many leading words of a table row are its row number.
fn row_number_words(parts: &Vec<Vec<char>>, Ghost(w): Ghost<Seq<Seq<char>>>) -> (r: usize)
    requires
        parts@.len() == w.len(),
        forall|k: int| 0 <= k < parts@.len() ==> #[trigger] parts@[k]@ == w[k],
    ensures
        r <= w.len(),
        w.subrange(r as int, w.len() as int) == ({
            if w.len() > 0 && w[0].len() > 0 && w[0].last() == ':' {
                w.drop_first()
            } else if w.len() > 1 && all_digits(w[0]) && w[1] == seq![':'] {
                w.subrange(2, w.len() as int)
            } else {
                w
            }
        }),
{
    if parts.len() == 0 {
        assert(w.subrange(0, 0) == w);
        return 0;
    }
    let first = &parts[0];
    assert(first@ == w[0]);
    if first.len() > 0 && first[first.len() - 1] == ':' {
        assert(w.subrange(1, w.len() as int) == w.drop_first());
        return 1;
    }
    if parts.len() > 1 {
        let mut all = true;
        let mut i: usize = 0;
        while i < first.len()
            invariant
                first@ == w[0],
                i <= first@.len(),
                all == (forall|j: int| 0 <= j < i ==> is_digit(first@[j])),
            decreases first@.len() - i,
        {
            if !('0' <= first[i] && first[i] <= '9') {
                all = false;
            }
            i += 1;
        }
        let second = &parts[1];
        assert(second@ == w[1]);
        if all && second.len() == 1 && second[0] == ':' {
            assert(second@ == seq![':']);
            return 2;
        }
        assert(!(all_digits(w[0]) && w[1] == seq![':'])) by {
            if w[1] == seq![':'] {
                assert(second@.len() == 1 && second@[0] == ':');
            }
        }
    }
    assert(w.subrange(0, w.len() as int) == w);
    0
}

/// The frame that a table row describes, if it describes one.
fn table_row_exec(line: &[char]) -> (r: Option<FrameInfo>)
    ensures
        r == table_row(line@),
{
    let parts = split_words(line);
    let ghost w = words_of(line@);
    let start = row_number_words(&parts, Ghost(w));
    let ghost p = row_columns(line@);
    assert(p == w.subrange(start as int, w.len() as int));
    if parts.len() - start < 8 {
        return None;
    }
    assert forall|k: int| 0 <= k < 8 implies #[trigger] parts@[start + k]@ == p[k] by {
        assert(parts@[start + k]@ == w[start + k]);
    }
    assert(parts@[start + 0]@ == p[0]);
    assert(parts@[start + 1]@ == p[1]);
    assert(parts@[start + 3]@ == p[3]);
    assert(parts@[start + 4]@ == p[4]);
    assert(parts@[start + 5]@ == p[5]);
    assert(parts@[start + 6]@ == p[6]);
    assert(parts@[start + 7]@ == p[7]);
    let width = match parse_usize(parts[start].as_slice()) {
        Some(v) => v,
        None => return None,
    };
    let height = match parse_usize(parts[start + 1].as_slice()) {
        Some(v) => v,
        None => return None,
    };
    let offset_x = match parse_usize(parts[start + 3].as_slice()) {
        Some(v) => v,
        None => return None,
    };
    let offset_y = match parse_usize(parts[start + 4].as_slice()) {
        Some(v) => v,
        None => return None,
    };
    let duration_ms = match parse_u64(parts[start + 5].as_slice()) {
        Some(v) => v,
        None => return None,
    };
    let background = chars_of("background");
    let yes = chars_of("yes");
    let dispose_background = eq_ignore_ascii_case(parts[start + 6].as_slice(), background.as_slice());
    let blend = eq_ignore_ascii_case(parts[start + 7].as_slice(), yes.as_slice());
    if width == 0 || height == 0 {
        return None;
    }
    Some(FrameInfo { offset_x, offset_y, duration_ms, dispose_background, blend })
}

/// Reads one row of the frame table that the container inspection prints:
/// `[n:] width height alpha x_offset y_offset duration dispose blend ...`.
/// Disposal is to the background when its column reads `background`, blending is
/// on when its column reads `yes`, both in any ASCII case.
pub fn parse_table_frame(line: &str) -> (r: Option<FrameInfo>)
    ensures
        r == table_row(line@),
{
    let chars = chars_of(line);
    table_row_exec(chars.as_slice())
}


/// `s` with every leading `frame` removed, as `trim_start_matches("frame")` does.
pub open spec fn strip_frame_words(s: Seq<char>) -> Seq<char>
    decreases s.len(),
{
    if s.len() >= 5 && starts_with_seq(s, "frame"@) {
        strip_frame_words(s.subrange(5, s.len() as int))
    } else {
        s
    }
}

/// `s` without its leading whitespace.
pub open spec fn trim_start(s: Seq<char>) -> Seq<char>
    decreases s.len(),
{
    if s.len() > 0 && is_space(s[0]) {
        trim_start(s.drop_first())
    } else {
        s
    }
}

/// A lower-case line opens a frame record: it starts with `frame`, and what
/// follows the `frame` words and the spaces after them starts with `#` or a digit.
pub open spec fn frame_header(lower: Seq<char>) -> bool {
    let rest = trim_start(strip_frame_words(lower));
    starts_with_seq(lower, "frame"@) && rest.len() > 0 && (rest[0] == '#' || is_digit(rest[0]))
}

proof fn lemma_frame_literal()
    ensures
        "frame"@.len() == 5,
{
    reveal_strlit("frame");
}

fn is_frame_header_chars(lower: &[char]) -> (r: bool)
    ensures
        r == frame_header(lower@),
{
    let frame = chars_of("frame");
    proof {
        lemma_frame_literal();
    }
    if !starts_with_chars(lower, frame.as_slice()) {
        return false;
    }
    let n = lower.len();
    assert(n >= 5);
    let mut i: usize = 0;
    assert(lower@.subrange(0, n as int) == lower@);
    while i <= n - 5 && occurs_at_exec(lower, frame.as_slice(), i)
        invariant
            n == lower@.len(),
            n >= 5,
            i <= n,
            frame@ == "frame"@,
            "frame"@.len() == 5,
            strip_frame_words(lower@) == strip_frame_words(lower@.subrange(i as int, n as int)),
        decreases n - i,
    {
        let ghost cur = lower@.subrange(i as int, n as int);
        assert(cur.subrange(5, cur.len() as int) == lower@.subrange(i + 5, n as int));
        assert(cur.subrange(0, 5) == lower@.subrange(i as int, i + 5));
        i += 5;
    }
    proof {
        let cur = lower@.subrange(i as int, n as int);
        if i <= n - 5 {
            assert(cur.subrange(0, 5) == lower@.subrange(i as int, i + 5));
        } else {
            assert(!(cur.len() >= 5));
        }
    }
    let ghost stripped = lower@.subrange(i as int, n as int);
    assert(strip_frame_words(lower@) == stripped);
    let mut j: usize = i;
    while j < n && is_space_exec(lower[j])
        invariant
            n == lower@.len(),
            i <= j <= n,
            trim_start(strip_frame_words(lower@)) == trim_start(lower@.subrange(j as int, n as int)),
        decreases n - j,
    {
        assert(lower@.subrange(j as int, n as int).drop_first() == lower@.subrange(j + 1, n as int));
        j += 1;
    }
    proof {
        let cur = lower@.subrange(j as int, n as int);
        if j < n {
            assert(cur[0] == lower@[j as int]);
        }
    }
    j < n && (lower[j] == '#' || ('0' <= lower[j] && lower[j] <= '9'))
}

/// Whether a line, already in lower case, opens a frame record: `frame` followed,
/// after any further `frame` and any whitespace, by `#` or an ASCII digit.
pub fn is_frame_header(lower: &str) -> (r: bool)
    ensures
        r == frame_header(lower@),
{
    let chars = chars_of(lower);
    is_frame_header_chars(chars.as_slice())
}

/// The two numbers of a `W x H` line: the first number before the first `x`
/// and the first number after it.
pub open spec fn dims_of_line(line: Seq<char>) -> Option<(usize, usize)> {
    let i = first_pos(line, 'x');
    let left = numbers_of(line.subrange(0, i));
    let right = numbers_of(line.subrange(i + 1, line.len() as int));
    if line.contains('x') && left.len() > 0 && right.len() > 0 {
        Some((left[0], right[0]))
    } else {
        None
    }
}

fn dims_of_chars(line: &[char]) -> (r: Option<(usize, usize)>)
    ensures
        r == dims_of_line(line@),
{
    let i = find_char(line, 'x');
    if i == line.len() {
        assert(!line@.contains('x')) by {
            crate::text::lemma_first_pos_absent(line@, 'x');
        }
        return None;
    }
    proof {
        crate::text::lemma_first_pos_found(line@, 'x');
    }
    let left_part = sub_chars(line, 0, i);
    let left = numbers_in(left_part.as_slice());
    let rest = sub_chars(line, i + 1, line.len());
    let right = numbers_in(rest.as_slice());
    if left.len() > 0 && right.len() > 0 {
        Some((left[0], right[0]))
    } else {
        None
    }
}

/// Reads a `W x H` pair from a line: the first number before its first `x` and
/// the first number after it.
pub fn parse_dimensions_from_line(line: &str) -> (r: Option<(usize, usize)>)
    ensures
        r == dims_of_line(line@),
{
    let chars = chars_of(line);
    dims_of_chars(chars.as_slice())
}


/// The line reports the canvas: in lower case it holds `canvas` and an `x`,
/// and its own text has a `W x H` pair.
pub open spec fn line_canvas(line: Seq<char>, lower: Seq<char>) -> Option<(usize, usize)> {
    if contains_seq(lower, "canvas"@) && lower.contains('x') {
        dims_of_line(line)
    } else {
        None
    }
}

/// The canvas size that the last line reporting one gives.
pub open spec fn canvas_of(lines: Seq<Seq<char>>, lowers: Seq<Seq<char>>) -> Option<(usize, usize)>
    decreases lines.len(),
{
    if lines.len() == 0 {
        None
    } else {
        match line_canvas(lines.last(), lowers.last()) {
            Some(d) => Some(d),
            None => canvas_of(lines.drop_last(), lowers.drop_last()),
        }
    }
}

/// Table mode: whether a table header has been seen, and the frames of the
/// rows after it that describe one.
pub open spec fn table_scan(lines: Seq<Seq<char>>, lowers: Seq<Seq<char>>) -> (bool, Seq<FrameInfo>)
    decreases lines.len(),
{
    if lines.len() == 0 {
        (false, seq![])
    } else {
        let prev = table_scan(lines.drop_last(), lowers.drop_last());
        let line = lines.last();
        if starts_with_seq(lowers.last(), "no.:"@) {
            (true, prev.1)
        } else if prev.0 {
            match table_row(line) {
                Some(f) => (true, prev.1.push(f)),
                None => (true, prev.1),
            }
        } else {
            prev
        }
    }
}

pub open spec fn with_offsets(f: FrameInfo, x: usize, y: usize) -> FrameInfo {
    FrameInfo { offset_x: x, offset_y: y, ..f }
}

pub open spec fn with_duration(f: FrameInfo, d: u64) -> FrameInfo {
    FrameInfo { duration_ms: d, ..f }
}

pub open spec fn with_dispose(f: FrameInfo, b: bool) -> FrameInfo {
    FrameInfo { dispose_background: b, ..f }
}

pub open spec fn with_blend(f: FrameInfo, b: bool) -> FrameInfo {
    FrameInfo { blend: b, ..f }
}

/// One line of header-block mode, with its lower-case form, on the frames
/// closed so far and the open record.
pub open spec fn header_step(
    frames: Seq<FrameInfo>,
    cur: Option<FrameInfo>,
    line: Seq<char>,
    lower: Seq<char>,
) -> (Seq<FrameInfo>, Option<FrameInfo>) {
    let nums = numbers_of(line);
    if frame_header(lower) {
        (
            match cur {
                Some(f) => frames.push(f),
                None => frames,
            },
            Some(default_frame()),
        )
    } else if cur is None {
        (frames, cur)
    } else if contains_seq(lower, "offset"@) {
        if nums.len() >= 2 {
            (frames, Some(with_offsets(cur->0, nums[0], nums[1])))
        } else {
            (frames, cur)
        }
    } else if contains_seq(lower, "duration"@) {
        if nums.len() >= 1 {
            (frames, Some(with_duration(cur->0, nums[0] as u64)))
        } else {
            (frames, cur)
        }
    } else if contains_seq(lower, "dispose"@) {
        (
            frames,
            Some(
                with_dispose(
                    cur->0,
                    contains_seq(lower, "background"@) || contains_seq(lower, "1"@),
                ),
            ),
        )
    } else if contains_seq(lower, "blend"@) {
        (
            frames,
            Some(
                with_blend(
                    cur->0,
                    contains_seq(lower, "yes"@) || contains_seq(lower, "true"@) || contains_seq(
                        lower,
                        "1"@,
                    ),
                ),
            ),
        )
    } else {
        (frames, cur)
    }
}

pub open spec fn header_scan(lines: Seq<Seq<char>>, lowers: Seq<Seq<char>>) -> (
    Seq<FrameInfo>,
    Option<FrameInfo>,
)
    decreases lines.len(),
{
    if lines.len() == 0 {
        (seq![], None)
    } else {
        let prev = header_scan(lines.drop_last(), lowers.drop_last());
        header_step(prev.0, prev.1, lines.last(), lowers.last())
    }
}

/// Header-block mode: the frame records, the last open one included.
pub open spec fn header_frames(lines: Seq<Seq<char>>, lowers: Seq<Seq<char>>) -> Seq<FrameInfo> {
    let st = header_scan(lines, lowers);
    match st.1 {
        Some(f) => st.0.push(f),
        None => st.0,
    }
}

/// The frames that the report gives: those of the table, or where the table
/// gives none, those of the header blocks.
pub open spec fn report_frames(lines: Seq<Seq<char>>, lowers: Seq<Seq<char>>) -> Seq<FrameInfo> {
    let t = table_scan(lines, lowers).1;
    if t.len() > 0 {
        t
    } else {
        header_frames(lines, lowers)
    }
}

pub open spec fn no_canvas_message() -> Seq<char> {
    "webpmux did not report a canvas size"@
}

/// The error text where no frame is found: a fixed sentence, then the first
/// 25 lines of the report.
pub open spec fn no_frames_message(lines: Seq<Seq<char>>) -> Seq<char> {
    "webpmux did not report any frames. Output preview:\n"@ + join_lines(
        lines.take(if lines.len() < 25 {
            lines.len() as int
        } else {
            25
        }),
    )
}

/// The lower-case forms of the lines.
pub open spec fn lowered(lines: Seq<Seq<char>>) -> Seq<Seq<char>> {
    lines.map_values(|l: Seq<char>| lower_of(l))
}

/// The outcome of reading a report: the canvas size and frames, or the error text.
pub open spec fn parse_outcome(text: Seq<char>) -> Result<(usize, usize, Seq<FrameInfo>), Seq<char>> {
    lines_outcome(lines_of(text), lowered(lines_of(text)))
}

/// The outcome of reading the lines of a report, each given with its lower-case form.
pub open spec fn lines_outcome(lines: Seq<Seq<char>>, lowers: Seq<Seq<char>>) -> Result<
    (usize, usize, Seq<FrameInfo>),
    Seq<char>,
> {
    let frames = report_frames(lines, lowers);
    match canvas_of(lines, lowers) {
        None => Err(no_canvas_message()),
        Some(c) => if frames.len() == 0 {
            Err(no_frames_message(lines))
        } else {
            Ok((c.0, c.1, frames))
        },
    }
}


/// Whether a reading of the report agrees with `parse_outcome`.
pub open spec fn parse_agrees(
    r: Result<(usize, usize, Vec<FrameInfo>), String>,
    text: Seq<char>,
) -> bool {
    match (r, parse_outcome(text)) {
        (Ok(v), Ok(w)) => v.0 == w.0 && v.1 == w.1 && v.2@ == w.2,
        (Err(e), Err(m)) => e@ == m,
        _ => false,
    }
}

fn scan_table(
    lines: &Vec<Vec<char>>,
    lowers: &Vec<Vec<char>>,
    Ghost(ls): Ghost<Seq<Seq<char>>>,
    Ghost(lws): Ghost<Seq<Seq<char>>>,
) -> (r: (Option<(usize, usize)>, Vec<FrameInfo>))
    requires
        lines@.len() == ls.len(),
        lowers@.len() == lws.len(),
        ls.len() == lws.len(),
        forall|k: int| 0 <= k < lines@.len() ==> #[trigger] lines@[k]@ == ls[k],
        forall|k: int| 0 <= k < lowers@.len() ==> #[trigger] lowers@[k]@ == lws[k],
    ensures
        r.0 == canvas_of(ls, lws),
        r.1@ == table_scan(ls, lws).1,
{
    let canvas_kw = chars_of("canvas");
    let table_kw = chars_of("no.:");
    let mut canvas: Option<(usize, usize)> = None;
    let mut frames: Vec<FrameInfo> = Vec::new();
    let mut in_table = false;
    let mut i: usize = 0;
    while i < lines.len()
        invariant
            lines@.len() == ls.len(),
            forall|k: int| 0 <= k < lines@.len() ==> #[trigger] lines@[k]@ == ls[k],
            i <= ls.len(),
            canvas_kw@ == "canvas"@,
            table_kw@ == "no.:"@,
            lowers@.len() == lws.len(),
            ls.len() == lws.len(),
            forall|k: int| 0 <= k < lowers@.len() ==> #[trigger] lowers@[k]@ == lws[k],
            canvas == canvas_of(ls.take(i as int), lws.take(i as int)),
            in_table == table_scan(ls.take(i as int), lws.take(i as int)).0,
            frames@ == table_scan(ls.take(i as int), lws.take(i as int)).1,
        decreases ls.len() - i,
    {
        let line = &lines[i];
        assert(line@ == ls[i as int]);
        assert(ls.take(i + 1).drop_last() == ls.take(i as int));
        assert(ls.take(i + 1).last() == ls[i as int]);
        assert(lws.take(i + 1).drop_last() == lws.take(i as int));
        assert(lws.take(i + 1).last() == lws[i as int]);
        let lower = &lowers[i];
        assert(lower@ == lws[i as int]);
        if contains_chars(lower.as_slice(), canvas_kw.as_slice()) && has_char(lower.as_slice(), 'x') {
            match dims_of_chars(line.as_slice()) {
                Some(d) => {
                    canvas = Some(d);
                },
                None => {},
            }
        }
        if starts_with_chars(lower.as_slice(), table_kw.as_slice()) {
            in_table = true;
        } else if in_table {
            match table_row_exec(line.as_slice()) {
                Some(f) => {
                    frames.push(f);
                },
                None => {},
            }
        }
        i += 1;
    }
    assert(ls.take(ls.len() as int) == ls);
    assert(lws.take(lws.len() as int) == lws);
    (canvas, frames)
}

fn scan_headers(
    lines: &Vec<Vec<char>>,
    lowers: &Vec<Vec<char>>,
    Ghost(ls): Ghost<Seq<Seq<char>>>,
    Ghost(lws): Ghost<Seq<Seq<char>>>,
) -> (r: Vec<FrameInfo>)
    requires
        lines@.len() == ls.len(),
        lowers@.len() == lws.len(),
        ls.len() == lws.len(),
        forall|k: int| 0 <= k < lines@.len() ==> #[trigger] lines@[k]@ == ls[k],
        forall|k: int| 0 <= k < lowers@.len() ==> #[trigger] lowers@[k]@ == lws[k],
    ensures
        r@ == header_frames(ls, lws),
{
    let offset_kw = chars_of("offset");
    let duration_kw = chars_of("duration");
    let dispose_kw = chars_of("dispose");
    let blend_kw = chars_of("blend");
    let background_kw = chars_of("background");
    let one_kw = chars_of("1");
    let yes_kw = chars_of("yes");
    let true_kw = chars_of("true");
    let mut frames: Vec<FrameInfo> = Vec::new();
    let mut cur: Option<FrameInfo> = None;
    let mut i: usize = 0;
    while i < lines.len()
        invariant
            lines@.len() == ls.len(),
            forall|k: int| 0 <= k < lines@.len() ==> #[trigger] lines@[k]@ == ls[k],
            i <= ls.len(),
            offset_kw@ == "offset"@,
            duration_kw@ == "duration"@,
            dispose_kw@ == "dispose"@,
            blend_kw@ == "blend"@,
            background_kw@ == "background"@,
            one_kw@ == "1"@,
            yes_kw@ == "yes"@,
            true_kw@ == "true"@,
            lowers@.len() == lws.len(),
            ls.len() == lws.len(),
            forall|k: int| 0 <= k < lowers@.len() ==> #[trigger] lowers@[k]@ == lws[k],
            frames@ == header_scan(ls.take(i as int), lws.take(i as int)).0,
            cur == header_scan(ls.take(i as int), lws.take(i as int)).1,
        decreases ls.len() - i,
    {
        let line = &lines[i];
        assert(line@ == ls[i as int]);
        assert(ls.take(i + 1).drop_last() == ls.take(i as int));
        assert(ls.take(i + 1).last() == ls[i as int]);
        assert(lws.take(i + 1).drop_last() == lws.take(i as int));
        assert(lws.take(i + 1).last() == lws[i as int]);
        let lower = &lowers[i];
        assert(lower@ == lws[i as int]);
        let lw = lower.as_slice();
        if is_frame_header_chars(lw) {
            match cur {
                Some(f) => {
                    frames.push(f);
                },
                None => {},
            }
            cur = Some(FrameInfo::default());
        } else {
            match cur {
                Some(f0) => {
                    let mut f = f0;
                    if contains_chars(lw, offset_kw.as_slice()) {
                        let nums = numbers_in(line.as_slice());
                        if nums.len() >= 2 {
                            f.offset_x = nums[0];
                            f.offset_y = nums[1];
                        }
                    } else if contains_chars(lw, duration_kw.as_slice()) {
                        let nums = numbers_in(line.as_slice());
                        if nums.len() >= 1 {
                            f.duration_ms = nums[0] as u64;
                        }
                    } else if contains_chars(lw, dispose_kw.as_slice()) {
                        f.dispose_background = contains_chars(lw, background_kw.as_slice())
                            || contains_chars(lw, one_kw.as_slice());
                    } else if contains_chars(lw, blend_kw.as_slice()) {
                        f.blend = contains_chars(lw, yes_kw.as_slice()) || contains_chars(
                            lw,
                            true_kw.as_slice(),
                        ) || contains_chars(lw, one_kw.as_slice());
                    }
                    cur = Some(f);
                },
                None => {},
            }
        }
        i += 1;
    }
    assert(ls.take(ls.len() as int) == ls);
    assert(lws.take(lws.len() as int) == lws);
    match cur {
        Some(f) => {
            frames.push(f);
        },
        None => {},
    }
    frames
}

fn preview_message(lines: &Vec<Vec<char>>, Ghost(ls): Ghost<Seq<Seq<char>>>) -> (r: String)
    requires
        lines@.len() == ls.len(),
        forall|k: int| 0 <= k < lines@.len() ==> #[trigger] lines@[k]@ == ls[k],
    ensures
        r@ == no_frames_message(ls),
{
    let m: usize = if lines.len() < 25 {
        lines.len()
    } else {
        25
    };
    let mut acc = chars_of("webpmux did not report any frames. Output preview:\n");
    let ghost head = acc@;
    let mut k: usize = 0;
    while k < m
        invariant
            m <= lines@.len(),
            lines@.len() == ls.len(),
            forall|j: int| 0 <= j < lines@.len() ==> #[trigger] lines@[j]@ == ls[j],
            k <= m,
            acc@ == head + join_lines(ls.take(k as int)),
        decreases m - k,
    {
        let ghost before = acc@;
        assert(ls.take(k + 1).drop_last() == ls.take(k as int));
        assert(ls.take(k + 1).last() == ls[k as int]);
        assert(lines@[k as int]@ == ls[k as int]);
        if k > 0 {
            acc.push('\n');
        }
        append_chars(&mut acc, lines[k].as_slice());
        proof {
            if k == 0 {
                assert(ls.take(1)[0] == ls[0]);
                assert(join_lines(ls.take(1)) == ls[0]);
            } else {
                assert(acc@ == head + (join_lines(ls.take(k as int)) + seq!['\n'] + ls[k as int]));
            }
        }
        k += 1;
    }
    string_of(acc.as_slice())
}

pub open spec fn char_views(v: Seq<Vec<char>>) -> Seq<Seq<char>> {
    v.map_values(|l: Vec<char>| l@)
}

/// Whether a reading of report lines agrees with `lines_outcome`.
pub open spec fn lines_agree(
    r: Result<(usize, usize, Vec<FrameInfo>), String>,
    lines: Seq<Seq<char>>,
    lowers: Seq<Seq<char>>,
) -> bool {
    match (r, lines_outcome(lines, lowers)) {
        (Ok(v), Ok(w)) => v.0 == w.0 && v.1 == w.1 && v.2@ == w.2,
        (Err(e), Err(m)) => e@ == m,
        _ => false,
    }
}

/// Reads the lines of a `webpmux -info` report, each given beside its
/// lower-case form, which the keyword tests read. The canvas size comes from
/// the last line whose lower-case form holds `canvas` and an `x`. The frames
/// come from the rows after a `no.:` table header; where there are none, from
/// `frame #n` header blocks and the offset, duration, dispose and blend lines
/// under each.
pub fn parse_info_lines(lines: &Vec<Vec<char>>, lowers: &Vec<Vec<char>>) -> (r: Result<
    (usize, usize, Vec<FrameInfo>),
    String,
>)
    requires
        lines@.len() == lowers@.len(),
    ensures
        lines_agree(r, char_views(lines@), char_views(lowers@)),
{
    broadcast use vstd::string::to_string_from_display_ensures_for_str;

    let ghost ls = char_views(lines@);
    let ghost lws = char_views(lowers@);
    let (canvas, table) = scan_table(lines, lowers, Ghost(ls), Ghost(lws));
    let frames = if table.len() > 0 {
        table
    } else {
        scan_headers(lines, lowers, Ghost(ls), Ghost(lws))
    };
    match canvas {
        None => Err("webpmux did not report a canvas size".to_string()),
        Some((w, h)) => {
            if frames.len() == 0 {
                Err(preview_message(lines, Ghost(ls)))
            } else {
                Ok((w, h, frames))
            }
        },
    }
}

/// Reads the report that a `webpmux -info` run prints into the canvas size and
/// the frames of the animation, in playback order, as `parse_info_lines` reads
/// its lines and their lower-case forms.
pub fn parse_webpmux_info(output: &str) -> (r: Result<(usize, usize, Vec<FrameInfo>), String>)
    ensures
        parse_agrees(r, output@),
{
    let text = chars_of(output);
    let lines = split_lines(text.as_slice());
    let ghost ls = lines_of(output@);
    assert(char_views(lines@) =~= ls);
    let mut lowers: Vec<Vec<char>> = Vec::new();
    let mut i: usize = 0;
    while i < lines.len()
        invariant
            i <= lines@.len(),
            char_views(lines@) == ls,
            lowers@.len() == i,
            forall|k: int| 0 <= k < i ==> #[trigger] lowers@[k]@ == lower_of(ls[k]),
        decreases lines@.len() - i,
    {
        let lw = to_lower(lines[i].as_slice());
        assert(lines@[i as int]@ == ls[i as int]);
        lowers.push(lw);
        i += 1;
    }
    assert(char_views(lowers@) =~= lowered(ls));
    parse_info_lines(&lines, &lowers)
}

pub open spec fn is_table_header(lower: Seq<char>) -> bool {
    starts_with_seq(lower, "no.:"@)
}

/// The frames of the table rows that describe one, in row order.
pub open spec fn row_frames(rows: Seq<Seq<char>>) -> Seq<FrameInfo>
    decreases rows.len(),
{
    if rows.len() == 0 {
        seq![]
    } else {
        match table_row(rows.last()) {
            Some(f) => row_frames(rows.drop_last()).push(f),
            None => row_frames(rows.drop_last()),
        }
    }
}

proof fn lemma_no_table_before(pre: Seq<Seq<char>>, pre_l: Seq<Seq<char>>)
    requires
        pre.len() == pre_l.len(),
        forall|i: int| 0 <= i < pre_l.len() ==> !is_table_header(#[trigger] pre_l[i]),
    ensures
        table_scan(pre, pre_l) == (false, Seq::<FrameInfo>::empty()),
    decreases pre.len(),
{
    if pre.len() > 0 {
        let d = pre_l.drop_last();
        assert forall|i: int| 0 <= i < d.len() implies !is_table_header(#[trigger] d[i]) by {
            assert(d[i] == pre_l[i]);
        }
        lemma_no_table_before(pre.drop_last(), d);
        assert(!is_table_header(pre_l[pre_l.len() - 1]));
    }
}

/// Table mode keeps, in order, exactly the rows after the table header that
/// describe a frame; a row that does not is dropped and the rest still read.
/// Each line comes with its lower-case form (`*_l`).
pub proof fn lemma_table_rows_in_order(
    pre: Seq<Seq<char>>,
    pre_l: Seq<Seq<char>>,
    header: Seq<char>,
    header_l: Seq<char>,
    rows: Seq<Seq<char>>,
    rows_l: Seq<Seq<char>>,
)
    requires
        pre.len() == pre_l.len(),
        rows.len() == rows_l.len(),
        forall|i: int| 0 <= i < pre_l.len() ==> !is_table_header(#[trigger] pre_l[i]),
        is_table_header(header_l),
        forall|i: int| 0 <= i < rows_l.len() ==> !is_table_header(#[trigger] rows_l[i]),
    ensures
        table_scan(pre + seq![header] + rows, pre_l + seq![header_l] + rows_l) == (
            true,
            row_frames(rows),
        ),
    decreases rows.len(),
{
    if rows.len() == 0 {
        lemma_no_table_before(pre, pre_l);
        assert(pre + seq![header] + rows == pre.push(header));
        assert(pre_l + seq![header_l] + rows_l == pre_l.push(header_l));
        assert((pre.push(header)).drop_last() == pre);
        assert((pre_l.push(header_l)).drop_last() == pre_l);
    } else {
        let d = rows_l.drop_last();
        assert forall|i: int| 0 <= i < d.len() implies !is_table_header(#[trigger] d[i]) by {
            assert(d[i] == rows_l[i]);
        }
        lemma_table_rows_in_order(pre, pre_l, header, header_l, rows.drop_last(), d);
        let all = pre + seq![header] + rows;
        let all_l = pre_l + seq![header_l] + rows_l;
        assert(all.drop_last() == pre + seq![header] + rows.drop_last());
        assert(all_l.drop_last() == pre_l + seq![header_l] + d);
        assert(all.last() == rows.last());
        assert(all_l.last() == rows_l.last());
        assert(!is_table_header(rows_l[rows_l.len() - 1]));
    }
}

/// How many lines open a frame record in header-block mode, by their
/// lower-case forms.
pub open spec fn header_count(lowers: Seq<Seq<char>>) -> nat
    decreases lowers.len(),
{
    if lowers.len() == 0 {
        0
    } else {
        header_count(lowers.drop_last()) + if frame_header(lowers.last()) {
            1nat
        } else {
            0nat
        }
    }
}

proof fn lemma_header_scan_count(lines: Seq<Seq<char>>, lowers: Seq<Seq<char>>)
    requires
        lines.len() == lowers.len(),
    ensures
        header_scan(lines, lowers).1 is Some <==> header_count(lowers) > 0,
        header_scan(lines, lowers).0.len() + (if header_scan(lines, lowers).1 is Some {
            1nat
        } else {
            0nat
        }) == header_count(lowers),
    decreases lines.len(),
{
    if lines.len() > 0 {
        lemma_header_scan_count(lines.drop_last(), lowers.drop_last());
    }
}

/// Header-block mode gives one frame for each line that opens a record.
pub proof fn lemma_header_frame_count(lines: Seq<Seq<char>>, lowers: Seq<Seq<char>>)
    requires
        lines.len() == lowers.len(),
    ensures
        header_frames(lines, lowers).len() == header_count(lowers),
{
    lemma_header_scan_count(lines, lowers);
}

/// A line that opens a record starts a frame with the defaults: no offset,
/// 33 ms, no disposal, blending on; the lines after it change only what they name.
pub proof fn lemma_header_opens_default(
    frames: Seq<FrameInfo>,
    cur: Option<FrameInfo>,
    line: Seq<char>,
    lower: Seq<char>,
)
    requires
        frame_header(lower),
    ensures
        header_step(frames, cur, line, lower).1 == Some(default_frame()),
{
}

/// A report whose table holds at least one row that describes a frame, and
/// that names a canvas, reads as that canvas and exactly those rows' frames,
/// in row order; rows that describe none are dropped without failing.
pub proof fn lemma_table_report(
    pre: Seq<Seq<char>>,
    pre_l: Seq<Seq<char>>,
    header: Seq<char>,
    header_l: Seq<char>,
    rows: Seq<Seq<char>>,
    rows_l: Seq<Seq<char>>,
)
    requires
        pre.len() == pre_l.len(),
        rows.len() == rows_l.len(),
        forall|i: int| 0 <= i < pre_l.len() ==> !is_table_header(#[trigger] pre_l[i]),
        is_table_header(header_l),
        forall|i: int| 0 <= i < rows_l.len() ==> !is_table_header(#[trigger] rows_l[i]),
        canvas_of(pre + seq![header] + rows, pre_l + seq![header_l] + rows_l) is Some,
        row_frames(rows).len() > 0,
    ensures
        ({
            let c = canvas_of(pre + seq![header] + rows, pre_l + seq![header_l] + rows_l)->0;
            lines_outcome(pre + seq![header] + rows, pre_l + seq![header_l] + rows_l) == Ok::<
                (usize, usize, Seq<FrameInfo>),
                Seq<char>,
            >((c.0, c.1, row_frames(rows)))
        }),
{
    lemma_table_rows_in_order(pre, pre_l, header, header_l, rows, rows_l);
}

/// A report with no table frames, a canvas line and at least one line that
/// opens a frame record reads as that canvas and one frame per such line.
pub proof fn lemma_header_report(lines: Seq<Seq<char>>, lowers: Seq<Seq<char>>)
    requires
        lines.len() == lowers.len(),
        table_scan(lines, lowers).1.len() == 0,
        canvas_of(lines, lowers) is Some,
        header_count(lowers) > 0,
    ensures
        lines_outcome(lines, lowers) is Ok,
        lines_outcome(lines, lowers)->Ok_0.2 == header_frames(lines, lowers),
        lines_outcome(lines, lowers)->Ok_0.2.len() == header_count(lowers),
{
    lemma_header_frame_count(lines, lowers);
}

/// `data` holds a four-byte chunk tag that only animated WebP files have:
/// `ANIM` or `ANMF`.
pub open spec fn has_animation_tag_at(data: Seq<u8>, i: int) -> bool {
    0 <= i && i + 4 <= data.len() && data[i] == 0x41u8 && data[i + 1] == 0x4eu8 && ((data[i + 2]
        == 0x49u8 && data[i + 3] == 0x4du8) || (data[i + 2] == 0x4du8 && data[i + 3] == 0x46u8))
}

/// Whether a stretch of a WebP file holds `ANIM` or `ANMF`.
pub fn has_animation_tag(data: &[u8]) -> (r: bool)
    ensures
        r == exists|i: int| has_animation_tag_at(data@, i),
{
    let n = data.len();
    if n < 4 {
        assert(forall|i: int| !has_animation_tag_at(data@, i));
        return false;
    }
    let mut i: usize = 0;
    while i <= n - 4
        invariant
            n == data@.len(),
            n >= 4,
            forall|j: int| 0 <= j < i ==> !has_animation_tag_at(data@, j),
        decreases n - i,
    {
        if data[i] == 0x41 && data[i + 1] == 0x4e && ((data[i + 2] == 0x49 && data[i + 3] == 0x4d)
            || (data[i + 2] == 0x4d && data[i + 3] == 0x46)) {
            assert(has_animation_tag_at(data@, i as int));
            return true;
        }
        i += 1;
    }
    assert forall|j: int| !has_animation_tag_at(data@, j) by {
        if 0 <= j && j < i {
        }
    }
    false
}

} // verus!

use vstd::prelude::*;

use crate::text::{
    append_chars, chars_of, decimal_chars, decimal_of, digit_char, digit_char_exec, join_lines,
    join_newlines, string_of,
};

use crate::settings::{filter_of, opt_view, build_ffmpeg_filter, ConversionSettings};

verus! {

/// The three digits of `r < 1000`, zeros in front.
pub open spec fn three_digits(r: nat) -> Seq<char> {
    seq![digit_char(r / 100), digit_char((r / 10) % 10), digit_char(r % 10)]
}

/// `ms` milliseconds as seconds with six decimals (`0.150000`).
pub open spec fn seconds_fixed(ms: nat) -> Seq<char> {
    decimal_of(ms / 1000) + seq!['.'] + three_digits(ms % 1000) + seq!['0', '0', '0']
}

/// `ms` milliseconds as seconds in the shortest decimal form (`1`, `0.1`, `2.25`).
pub open spec fn seconds_short(ms: nat) -> Seq<char> {
    let r = ms % 1000;
    let frac = if r == 0 {
        seq![]
    } else if r % 100 == 0 {
        seq!['.', digit_char(r / 100)]
    } else if r % 10 == 0 {
        seq!['.', digit_char(r / 100), digit_char((r / 10) % 10)]
    } else {
        seq!['.'] + three_digits(r)
    };
    decimal_of(ms / 1000) + frac
}

fn push_three_digits(acc: &mut Vec<char>, r: u64)
    requires
        r < 1000,
    ensures
        final(acc)@ == old(acc)@ + three_digits(r as nat),
{
    acc.push(digit_char_exec(r / 100));
    acc.push(digit_char_exec((r / 10) % 10));
    acc.push(digit_char_exec(r % 10));
}

pub fn seconds_fixed_chars(ms: u64) -> (r: Vec<char>)
    ensures
        r@ == seconds_fixed(ms as nat),
{
    let mut v = decimal_chars(ms / 1000);
    v.push('.');
    push_three_digits(&mut v, ms % 1000);
    v.push('0');
    v.push('0');
    v.push('0');
    v
}

pub fn seconds_short_chars(ms: u64) -> (r: Vec<char>)
    ensures
        r@ == seconds_short(ms as nat),
{
    let mut v = decimal_chars(ms / 1000);
    let r = ms % 1000;
    if r == 0 {
        assert(v@ == v@ + Seq::<char>::empty());
    } else if r % 100 == 0 {
        v.push('.');
        v.push(digit_char_exec(r / 100));
    } else if r % 10 == 0 {
        v.push('.');
        v.push(digit_char_exec(r / 100));
        v.push(digit_char_exec((r / 10) % 10));
    } else {
        v.push('.');
        push_three_digits(&mut v, r);
    }
    v
}

/// A path made safe inside single quotes: each `'` becomes `'\''`.
pub open spec fn escape_quotes(s: Seq<char>) -> Seq<char>
    decreases s.len(),
{
    if s.len() == 0 {
        seq![]
    } else {
        escape_quotes(s.drop_last()) + if s.last() == '\'' {
            seq!['\'', '\\', '\'', '\'']
        } else {
            seq![s.last()]
        }
    }
}

fn escape_chars(s: &[char]) -> (r: Vec<char>)
    ensures
        r@ == escape_quotes(s@),
{
    let mut out: Vec<char> = Vec::new();
    let mut i: usize = 0;
    while i < s.len()
        invariant
            i <= s@.len(),
            out@ == escape_quotes(s@.subrange(0, i as int)),
        decreases s@.len() - i,
    {
        let ghost pre = s@.subrange(0, i as int);
        let ghost post = s@.subrange(0, i + 1);
        assert(post.drop_last() == pre);
        assert(post.last() == s@[i as int]);
        if s[i] == '\'' {
            out.push('\'');
            out.push('\\');
            out.push('\'');
            out.push('\'');
        } else {
            out.push(s[i]);
        }
        i += 1;
    }
    assert(s@.subrange(0, s@.len() as int) == s@);
    out
}

/// Escapes a path for a single-quoted entry of an ffmpeg concat list: each `'`
/// becomes `'\''`, which closes the quote, adds a quote, and opens it again.
pub fn escape_concat_path(path: &str) -> (r: String)
    ensures
        r@ == escape_quotes(path@),
{
    let chars = chars_of(path);
    let out = escape_chars(chars.as_slice());
    string_of(out.as_slice())
}

pub open spec fn file_line(path: Seq<char>) -> Seq<char> {
    "file '"@ + escape_quotes(path) + "'"@
}

pub open spec fn duration_line(ms: nat) -> Seq<char> {
    "duration "@ + seconds_fixed(ms)
}

/// The lines for each frame: its file, then its duration where that is not zero.
pub open spec fn frame_entries(fp: Seq<(Seq<char>, u64)>) -> Seq<Seq<char>>
    decreases fp.len(),
{
    if fp.len() == 0 {
        seq![]
    } else {
        frame_entries(fp.drop_last()) + seq![file_line(fp.last().0)] + if fp.last().1 > 0 {
            seq![duration_line(fp.last().1 as nat)]
        } else {
            seq![]
        }
    }
}

/// The lines of a concat list: each frame's entries, then the last frame's
/// file once more, which tells the demuxer how long the last real entry lasts.
pub open spec fn concat_lines(fp: Seq<(Seq<char>, u64)>) -> Seq<Seq<char>> {
    frame_entries(fp) + if fp.len() > 0 {
        seq![file_line(fp.last().0)]
    } else {
        seq![]
    }
}

pub open spec fn path_views(fp: Seq<(String, u64)>) -> Seq<(Seq<char>, u64)> {
    fp.map_values(|e: (String, u64)| (e.0@, e.1))
}

fn file_line_chars(path: &String) -> (r: Vec<char>)
    ensures
        r@ == file_line(path@),
{
    let mut v = chars_of("file '");
    let p = chars_of(path.as_str());
    let e = escape_chars(p.as_slice());
    append_chars(&mut v, e.as_slice());
    let q = chars_of("'");
    append_chars(&mut v, q.as_slice());
    v
}

/// The concat list that feeds the frames to ffmpeg with their own durations,
/// one line each, joined by newlines: for each frame `file '<path>'` and, where
/// its duration is not zero, `duration <seconds, six decimals>`; then the last
/// frame's `file` line once more.
pub fn build_concat_list(frame_paths: &Vec<(String, u64)>) -> (r: String)
    ensures
        r@ == join_lines(concat_lines(path_views(frame_paths@))),
{
    let ghost fp = path_views(frame_paths@);
    let mut lines: Vec<Vec<char>> = Vec::new();
    let mut k: usize = 0;
    while k < frame_paths.len()
        invariant
            fp == path_views(frame_paths@),
            k <= frame_paths@.len(),
            lines@.len() == frame_entries(fp.take(k as int)).len(),
            forall|j: int|
                0 <= j < lines@.len() ==> #[trigger] lines@[j]@ == frame_entries(fp.take(k as int))[j],
        decreases frame_paths@.len() - k,
    {
        let ghost before = lines@;
        let ghost prev = frame_entries(fp.take(k as int));
        assert(fp.take(k + 1).drop_last() == fp.take(k as int));
        assert(fp.take(k + 1).last() == fp[k as int]);
        let (path, duration) = &frame_paths[k];
        let line = file_line_chars(path);
        lines.push(line);
        if *duration > 0 {
            let mut d = chars_of("duration ");
            let s = seconds_fixed_chars(*duration);
            append_chars(&mut d, s.as_slice());
            lines.push(d);
        }
        assert forall|j: int|
            0 <= j < lines@.len() implies #[trigger] lines@[j]@ == frame_entries(fp.take(k + 1))[j] by {
            if j < before.len() {
                assert(lines@[j] == before[j]);
            }
        }
        k += 1;
    }
    assert(fp.take(fp.len() as int) == fp);
    let n = frame_paths.len();
    if n > 0 {
        let last = file_line_chars(&frame_paths[n - 1].0);
        let ghost before = lines@;
        lines.push(last);
        assert forall|j: int|
            0 <= j < lines@.len() implies #[trigger] lines@[j]@ == concat_lines(fp)[j] by {
            if j < before.len() {
                assert(lines@[j] == before[j]);
            }
        }
    } else {
        assert(concat_lines(fp) == frame_entries(fp));
    }
    let text = join_newlines(&lines, Ghost(concat_lines(fp)));
    string_of(text.as_slice())
}


pub open spec fn arg_views(v: Seq<String>) -> Seq<Seq<char>> {
    v.map_values(|s: String| s@)
}

fn push_arg(args: &mut Vec<String>, s: &str)
    ensures
        arg_views(final(args)@) == arg_views(old(args)@).push(s@),
{
    broadcast use vstd::string::to_string_from_display_ensures_for_str;

    args.push(s.to_string());
    assert(arg_views(args@) =~= arg_views(old(args)@).push(s@));
}

fn push_arg_chars(args: &mut Vec<String>, s: &[char])
    ensures
        arg_views(final(args)@) == arg_views(old(args)@).push(s@),
{
    args.push(string_of(s));
    assert(arg_views(args@) =~= arg_views(old(args)@).push(s@));
}

fn push_arg_string(args: &mut Vec<String>, s: String)
    ensures
        arg_views(final(args)@) == arg_views(old(args)@).push(s@),
{
    args.push(s);
    assert(arg_views(args@) =~= arg_views(old(args)@).push(s@));
}

pub open spec fn head_args() -> Seq<Seq<char>> {
    seq!["-hide_banner"@, "-loglevel"@, "error"@]
}

pub open spec fn codec_args() -> Seq<Seq<char>> {
    seq![
        "-an"@,
        "-c:v"@,
        "libx264"@,
        "-pix_fmt"@,
        "yuv420p"@,
        "-profile:v"@,
        "high"@,
        "-level"@,
        "4.1"@,
    ]
}

pub open spec fn rate_args(preset: Seq<char>, crf: u8, output: Seq<char>) -> Seq<Seq<char>> {
    seq![
        "-tune"@,
        "animation"@,
        "-preset"@,
        preset,
        "-crf"@,
        decimal_of(crf as nat),
        "-movflags"@,
        "+faststart"@,
        "-y"@,
        output,
    ]
}

fn push_head(args: &mut Vec<String>)
    ensures
        arg_views(final(args)@) == arg_views(old(args)@) + head_args(),
{
    push_arg(args, "-hide_banner");
    push_arg(args, "-loglevel");
    push_arg(args, "error");
    assert(arg_views(args@) =~= arg_views(old(args)@) + head_args());
}

fn push_codec(args: &mut Vec<String>)
    ensures
        arg_views(final(args)@) == arg_views(old(args)@) + codec_args(),
{
    push_arg(args, "-an");
    push_arg(args, "-c:v");
    push_arg(args, "libx264");
    push_arg(args, "-pix_fmt");
    push_arg(args, "yuv420p");
    push_arg(args, "-profile:v");
    push_arg(args, "high");
    push_arg(args, "-level");
    push_arg(args, "4.1");
    assert(arg_views(args@) =~= arg_views(old(args)@) + codec_args());
}

fn push_rate(args: &mut Vec<String>, settings: &ConversionSettings, output: &str)
    ensures
        arg_views(final(args)@) == arg_views(old(args)@) + rate_args(
            settings.preset@,
            settings.crf,
            output@,
        ),
{
    push_arg(args, "-tune");
    push_arg(args, "animation");
    push_arg(args, "-preset");
    push_arg(args, settings.preset.as_str());
    let crf = decimal_chars(settings.crf as u64);
    let ghost a = arg_views(args@);
    push_arg(args, "-crf");
    push_arg_chars(args, crf.as_slice());
    push_arg(args, "-movflags");
    push_arg(args, "+faststart");
    push_arg(args, "-y");
    push_arg(args, output);
    assert(arg_views(args@) =~= arg_views(old(args)@) + rate_args(
        settings.preset@,
        settings.crf,
        output@,
    ));
}

/// The arguments of the direct ffmpeg run on the input file: a still image is
/// looped for the still-image time at the asked rate (30 where none is asked);
/// an animation is read at its own timing, or at the asked rate.
pub open spec fn primary_args(
    fps: Option<u32>,
    static_ms: u64,
    background: Option<Seq<char>>,
    preset: Seq<char>,
    crf: u8,
    is_animated: bool,
    input: Seq<char>,
    output: Seq<char>,
) -> Seq<Seq<char>> {
    let mode = if !is_animated {
        seq![
            "-loop"@,
            "1"@,
            "-t"@,
            seconds_short(static_ms as nat),
            "-r"@,
            decimal_of(
                match fps {
                    Some(f) => f as nat,
                    None => 30,
                },
            ),
        ]
    } else {
        match fps {
            Some(f) => seq!["-r"@, decimal_of(f as nat)],
            None => seq![],
        }
    };
    head_args() + mode + seq!["-i"@, input] + codec_args() + seq!["-vf"@, filter_of(background)]
        + rate_args(preset, crf, output)
}

/// The arguments for ffmpeg's direct conversion of `input_path` into
/// `output_path`.
pub fn primary_ffmpeg_args(
    settings: &ConversionSettings,
    is_animated: bool,
    input_path: &str,
    output_path: &str,
) -> (r: Vec<String>)
    ensures
        arg_views(r@) == primary_args(
            settings.fps,
            settings.static_duration_ms,
            opt_view(settings.background),
            settings.preset@,
            settings.crf,
            is_animated,
            input_path@,
            output_path@,
        ),
{
    let mut args: Vec<String> = Vec::new();
    push_head(&mut args);
    let ghost a0 = arg_views(args@);
    if !is_animated {
        let fps: u32 = match settings.fps {
            Some(f) => f,
            None => 30,
        };
        push_arg(&mut args, "-loop");
        push_arg(&mut args, "1");
        push_arg(&mut args, "-t");
        let t = seconds_short_chars(settings.static_duration_ms);
        push_arg_chars(&mut args, t.as_slice());
        push_arg(&mut args, "-r");
        let f = decimal_chars(fps as u64);
        push_arg_chars(&mut args, f.as_slice());
    } else {
        match settings.fps {
            Some(fps) => {
                push_arg(&mut args, "-r");
                let f = decimal_chars(fps as u64);
                push_arg_chars(&mut args, f.as_slice());
            },
            None => {},
        }
    }
    let ghost a1 = arg_views(args@);
    push_arg(&mut args, "-i");
    push_arg(&mut args, input_path);
    push_codec(&mut args);
    push_arg(&mut args, "-vf");
    let vf = build_ffmpeg_filter(settings);
    push_arg_string(&mut args, vf);
    push_rate(&mut args, settings, output_path);
    assert(arg_views(args@) =~= primary_args(
        settings.fps,
        settings.static_duration_ms,
        opt_view(settings.background),
        settings.preset@,
        settings.crf,
        is_animated,
        input_path@,
        output_path@,
    ));
    args
}

pub open spec fn even_up_nat(n: nat) -> nat {
    if n % 2 == 0 {
        n
    } else {
        n + 1
    }
}

/// The scaling filter of the frame-by-frame path: the canvas size rounded up
/// to even sides.
pub open spec fn scale_filter(w: nat, h: nat) -> Seq<char> {
    "scale="@ + decimal_of(even_up_nat(w)) + seq![':'] + decimal_of(even_up_nat(h))
}

/// The arguments of the final ffmpeg run of the frame-by-frame path. With an
/// asked rate, a lone frame is looped for the still-image time and several are
/// read as a numbered image sequence at that rate; without one, the frames come
/// from the concat list with their own durations.
pub open spec fn fallback_args(
    fps: Option<u32>,
    static_ms: u64,
    preset: Seq<char>,
    crf: u8,
    canvas_w: nat,
    canvas_h: nat,
    frame_count: nat,
    first_frame: Seq<char>,
    frame_pattern: Seq<char>,
    concat_path: Seq<char>,
    output: Seq<char>,
) -> Seq<Seq<char>> {
    let mode = match fps {
        Some(f) => if frame_count == 1 {
            seq!["-loop"@, "1"@, "-t"@, seconds_short(static_ms as nat), "-i"@, first_frame]
        } else {
            seq!["-framerate"@, decimal_of(f as nat), "-i"@, frame_pattern]
        },
        None => seq!["-f"@, "concat"@, "-safe"@, "0"@, "-i"@, concat_path],
    };
    let vsync = if fps is Some {
        "cfr"@
    } else {
        "vfr"@
    };
    head_args() + mode + codec_args() + seq![
        "-vf"@,
        scale_filter(canvas_w, canvas_h),
        "-vsync"@,
        vsync,
    ] + rate_args(preset, crf, output)
}

/// The arguments for the final ffmpeg run of the frame-by-frame path.
pub fn fallback_ffmpeg_args(
    settings: &ConversionSettings,
    canvas_w: u32,
    canvas_h: u32,
    frame_count: usize,
    first_frame: &str,
    frame_pattern: &str,
    concat_path: &str,
    output_path: &str,
) -> (r: Vec<String>)
    ensures
        arg_views(r@) == fallback_args(
            settings.fps,
            settings.static_duration_ms,
            settings.preset@,
            settings.crf,
            canvas_w as nat,
            canvas_h as nat,
            frame_count as nat,
            first_frame@,
            frame_pattern@,
            concat_path@,
            output_path@,
        ),
{
    let mut args: Vec<String> = Vec::new();
    push_head(&mut args);
    match settings.fps {
        Some(fps) => {
            if frame_count == 1 {
                push_arg(&mut args, "-loop");
                push_arg(&mut args, "1");
                push_arg(&mut args, "-t");
                let t = seconds_short_chars(settings.static_duration_ms);
                push_arg_chars(&mut args, t.as_slice());
                push_arg(&mut args, "-i");
                push_arg(&mut args, first_frame);
            } else {
                push_arg(&mut args, "-framerate");
                let f = decimal_chars(fps as u64);
                push_arg_chars(&mut args, f.as_slice());
                push_arg(&mut args, "-i");
                push_arg(&mut args, frame_pattern);
            }
        },
        None => {
            push_arg(&mut args, "-f");
            push_arg(&mut args, "concat");
            push_arg(&mut args, "-safe");
            push_arg(&mut args, "0");
            push_arg(&mut args, "-i");
            push_arg(&mut args, concat_path);
        },
    }
    push_codec(&mut args);
    push_arg(&mut args, "-vf");
    let ew: u64 = if canvas_w % 2 == 0 {
        canvas_w as u64
    } else {
        canvas_w as u64 + 1
    };
    let eh: u64 = if canvas_h % 2 == 0 {
        canvas_h as u64
    } else {
        canvas_h as u64 + 1
    };
    let mut vf = chars_of("scale=");
    let wd = decimal_chars(ew);
    append_chars(&mut vf, wd.as_slice());
    vf.push(':');
    let hd = decimal_chars(eh);
    append_chars(&mut vf, hd.as_slice());
    assert(vf@ == scale_filter(canvas_w as nat, canvas_h as nat));
    push_arg_chars(&mut args, vf.as_slice());
    push_arg(&mut args, "-vsync");
    if settings.fps.is_some() {
        push_arg(&mut args, "cfr");
    } else {
        push_arg(&mut args, "vfr");
    }
    push_rate(&mut args, settings, output_path);
    assert(arg_views(args@) =~= fallback_args(
        settings.fps,
        settings.static_duration_ms,
        settings.preset@,
        settings.crf,
        canvas_w as nat,
        canvas_h as nat,
        frame_count as nat,
        first_frame@,
        frame_pattern@,
        concat_path@,
        output_path@,
    ));
    args
}


/// Reading the same report and building the final encoder run from the same
/// settings and frame files gives the same arguments and the same concat list
/// every time: both are functions of those values alone.
pub proof fn lemma_encoder_input_repeatable(
    report: Seq<char>,
    fps: Option<u32>,
    static_ms: u64,
    preset: Seq<char>,
    crf: u8,
    frame_files: Seq<(Seq<char>, u64)>,
    first_frame: Seq<char>,
    frame_pattern: Seq<char>,
    concat_path: Seq<char>,
    output: Seq<char>,
    run1: (Seq<Seq<char>>, Seq<char>),
    run2: (Seq<Seq<char>>, Seq<char>),
)
    requires
        crate::parse::parse_outcome(report) is Ok,
        ({
            let (w, h, frames) = crate::parse::parse_outcome(report)->Ok_0;
            &&& run1.0 == fallback_args(
                fps,
                static_ms,
                preset,
                crf,
                w as nat,
                h as nat,
                frames.len(),
                first_frame,
                frame_pattern,
                concat_path,
                output,
            )
            &&& run2.0 == fallback_args(
                fps,
                static_ms,
                preset,
                crf,
                w as nat,
                h as nat,
                frames.len(),
                first_frame,
                frame_pattern,
                concat_path,
                output,
            )
        }),
        run1.1 == join_lines(concat_lines(frame_files)),
        run2.1 == join_lines(concat_lines(frame_files)),
    ensures
        run1 == run2,
{
}

} // verus!

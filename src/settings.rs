use vstd::prelude::*;

use crate::compose::Rgba8;
use crate::parse::trim_start;
use crate::text::{
    append_chars, chars_of, is_space, is_space_exec, lower_of, occurs_at_exec, string_of, sub_chars,
    to_lower,
};

verus! {

/// `s` without its trailing whitespace.
pub open spec fn trim_end(s: Seq<char>) -> Seq<char>
    decreases s.len(),
{
    if s.len() > 0 && is_space(s.last()) {
        trim_end(s.drop_last())
    } else {
        s
    }
}

/// `s` without leading and trailing whitespace, as `str::trim` gives it.
pub open spec fn trim_both(s: Seq<char>) -> Seq<char> {
    trim_end(trim_start(s))
}

pub fn trim_chars(s: &[char]) -> (r: Vec<char>)
    ensures
        r@ == trim_both(s@),
{
    let n = s.len();
    let mut i: usize = 0;
    assert(s@.subrange(0, n as int) == s@);
    while i < n && is_space_exec(s[i])
        invariant
            n == s@.len(),
            i <= n,
            trim_start(s@) == trim_start(s@.subrange(i as int, n as int)),
        decreases n - i,
    {
        assert(s@.subrange(i as int, n as int).drop_first() == s@.subrange(i + 1, n as int));
        i += 1;
    }
    let ghost t = s@.subrange(i as int, n as int);
    proof {
        if i < n {
            assert(t[0] == s@[i as int]);
        }
    }
    assert(trim_start(s@) == t);
    let mut j: usize = n;
    assert(t.subrange(0, (j - i) as int) == t);
    while j > i && is_space_exec(s[j - 1])
        invariant
            n == s@.len(),
            i <= j <= n,
            t == s@.subrange(i as int, n as int),
            trim_end(t) == trim_end(s@.subrange(i as int, j as int)),
        decreases j,
    {
        assert(s@.subrange(i as int, j as int).drop_last() == s@.subrange(i as int, j - 1));
        j -= 1;
    }
    sub_chars(s, i, j)
}

/// `s` without any `#` in front.
pub open spec fn strip_hashes(s: Seq<char>) -> Seq<char>
    decreases s.len(),
{
    if s.len() > 0 && s[0] == '#' {
        strip_hashes(s.drop_first())
    } else {
        s
    }
}

fn strip_hashes_chars(s: &[char]) -> (r: Vec<char>)
    ensures
        r@ == strip_hashes(s@),
{
    let n = s.len();
    let mut i: usize = 0;
    assert(s@.subrange(0, n as int) == s@);
    while i < n && s[i] == '#'
        invariant
            n == s@.len(),
            i <= n,
            strip_hashes(s@) == strip_hashes(s@.subrange(i as int, n as int)),
        decreases n - i,
    {
        assert(s@.subrange(i as int, n as int).drop_first() == s@.subrange(i + 1, n as int));
        i += 1;
    }
    proof {
        if i < n {
            assert(s@.subrange(i as int, n as int)[0] == s@[i as int]);
        }
    }
    sub_chars(s, i, n)
}

/// The value of a hexadecimal digit of either case.
pub open spec fn hex_value(c: char) -> Option<nat> {
    if '0' <= c && c <= '9' {
        Some(((c as u32) - ('0' as u32)) as nat)
    } else if 'a' <= c && c <= 'f' {
        Some(((c as u32) - ('a' as u32) + 10) as nat)
    } else if 'A' <= c && c <= 'F' {
        Some(((c as u32) - ('A' as u32) + 10) as nat)
    } else {
        None
    }
}

fn hex_value_exec(c: char) -> (r: Option<u8>)
    ensures
        r matches Some(v) ==> hex_value(c) == Some(v as nat),
        r is None ==> hex_value(c) is None,
{
    if '0' <= c && c <= '9' {
        Some((c as u32 - '0' as u32) as u8)
    } else if 'a' <= c && c <= 'f' {
        Some((c as u32 - 'a' as u32 + 10) as u8)
    } else if 'A' <= c && c <= 'F' {
        Some((c as u32 - 'A' as u32 + 10) as u8)
    } else {
        None
    }
}

/// Two hexadecimal digits read as a byte, the first the high half.
pub open spec fn hex_pair(a: char, b: char) -> Option<u8> {
    match (hex_value(a), hex_value(b)) {
        (Some(x), Some(y)) => Some((16 * x + y) as u8),
        _ => None,
    }
}

fn hex_pair_exec(a: char, b: char) -> (r: Option<u8>)
    ensures
        r == hex_pair(a, b),
{
    match (hex_value_exec(a), hex_value_exec(b)) {
        (Some(x), Some(y)) => Some(16 * x + y),
        _ => None,
    }
}

/// The digits of a colour: the text trimmed, without leading `#`s.
pub open spec fn color_digits(color: Seq<char>) -> Seq<char> {
    strip_hashes(trim_both(color))
}

pub open spec fn all_ascii(s: Seq<char>) -> bool {
    forall|i: int| 0 <= i < s.len() ==> #[trigger] s[i] <= '\x7f'
}

/// A colour `RRGGBB` (opaque) or `RRGGBBAA`, in base 16, after trimming and
/// dropping leading `#`s; anything else is no colour.
pub open spec fn hex_color(color: Seq<char>) -> Option<Rgba8> {
    let d = color_digits(color);
    if !all_ascii(d) || (d.len() != 6 && d.len() != 8) {
        None
    } else {
        let r = hex_pair(d[0], d[1]);
        let g = hex_pair(d[2], d[3]);
        let b = hex_pair(d[4], d[5]);
        let a = if d.len() == 8 {
            hex_pair(d[6], d[7])
        } else {
            Some(255u8)
        };
        if r is Some && g is Some && b is Some && a is Some {
            Some(Rgba8 { r: r->0, g: g->0, b: b->0, a: a->0 })
        } else {
            None
        }
    }
}

fn color_digits_chars(color: &str) -> (r: Vec<char>)
    ensures
        r@ == color_digits(color@),
{
    let chars = chars_of(color);
    let trimmed = trim_chars(chars.as_slice());
    strip_hashes_chars(trimmed.as_slice())
}

/// Reads a colour written `#RRGGBB` or `#RRGGBBAA` in base 16; surrounding
/// whitespace and any number of leading `#` are ignored. Without an alpha part
/// the colour is opaque.
pub fn parse_hex_color(color: &str) -> (r: Option<Rgba8>)
    ensures
        r == hex_color(color@),
{
    let d = color_digits_chars(color);
    let n = d.len();
    let mut i: usize = 0;
    while i < n
        invariant
            n == d@.len(),
            d@ == color_digits(color@),
            i <= n,
            forall|j: int| 0 <= j < i ==> #[trigger] d@[j] <= '\x7f',
        decreases n - i,
    {
        if d[i] > '\x7f' {
            assert(!all_ascii(d@));
            return None;
        }
        i += 1;
    }
    if n != 6 && n != 8 {
        return None;
    }
    let r = hex_pair_exec(d[0], d[1]);
    let g = hex_pair_exec(d[2], d[3]);
    let b = hex_pair_exec(d[4], d[5]);
    let a = if n == 8 {
        hex_pair_exec(d[6], d[7])
    } else {
        Some(255u8)
    };
    match (r, g, b, a) {
        (Some(r), Some(g), Some(b), Some(a)) => Some(Rgba8 { r, g, b, a }),
        _ => None,
    }
}


/// What a caller asks of one conversion; every field may be left out.
pub struct ConvertOptions {
    pub output_dir: Option<String>,
    pub quality: Option<String>,
    pub fps: Option<u32>,
    pub background: Option<String>,
    pub output_format: Option<String>,
    pub output_name_template: Option<String>,
    pub sequence: Option<u32>,
    /// The display time of a still image, in milliseconds.
    pub static_duration_ms: Option<u64>,
}

/// The settings of one conversion, derived once from its options.
pub struct ConversionSettings {
    pub output_dir: Option<String>,
    pub crf: u8,
    pub preset: String,
    pub fps: Option<u32>,
    pub background: Option<String>,
    pub output_format: String,
    pub output_name_template: String,
    pub sequence: u32,
    pub static_duration_ms: u64,
}

pub const MIN_STATIC_MS: u64 = 100;

pub const MAX_STATIC_MS: u64 = 60000;

pub const DEFAULT_STATIC_MS: u64 = 1000;

/// The encoder's rate factor and speed preset for a lower-case quality name:
/// `balanced` gives 18 and `medium`, `small` gives 24 and `fast`, anything else
/// gives 12 and `slow`.
pub open spec fn preset_for_lower(lower: Seq<char>) -> (u8, Seq<char>) {
    if lower == "balanced"@ {
        (18u8, "medium"@)
    } else if lower == "small"@ {
        (24u8, "fast"@)
    } else {
        (12u8, "slow"@)
    }
}

/// The rate factor and preset for a quality name in any case; no name is `high`.
pub open spec fn quality_preset(quality: Option<Seq<char>>) -> (u8, Seq<char>) {
    match quality {
        Some(q) => preset_for_lower(lower_of(q)),
        None => (12u8, "slow"@),
    }
}

/// The container for a lower-case format name: `mov` for `mov`, else `mp4`.
pub open spec fn format_for_lower(lower: Seq<char>) -> Seq<char> {
    if lower == "mov"@ {
        "mov"@
    } else {
        "mp4"@
    }
}

/// The container: `mov` where asked for in any case, else `mp4`.
pub open spec fn output_format_of(format: Option<Seq<char>>) -> Seq<char> {
    match format {
        Some(f) => format_for_lower(lower_of(f)),
        None => "mp4"@,
    }
}

/// The encoder's rate factor and speed preset for a quality name already in
/// lower case.
pub fn quality_preset_for(lower: &str) -> (r: (u8, String))
    ensures
        (r.0, r.1@) == preset_for_lower(lower@),
{
    broadcast use vstd::string::to_string_from_display_ensures_for_str;

    let chars = chars_of(lower);
    let balanced = chars_of("balanced");
    let small = chars_of("small");
    if same_chars(chars.as_slice(), balanced.as_slice()) {
        (18u8, "medium".to_string())
    } else if same_chars(chars.as_slice(), small.as_slice()) {
        (24u8, "fast".to_string())
    } else {
        (12u8, "slow".to_string())
    }
}

/// The container for a format name already in lower case.
pub fn output_format_for(lower: &str) -> (r: String)
    ensures
        r@ == format_for_lower(lower@),
{
    broadcast use vstd::string::to_string_from_display_ensures_for_str;

    let chars = chars_of(lower);
    let mov = chars_of("mov");
    if same_chars(chars.as_slice(), mov.as_slice()) {
        "mov".to_string()
    } else {
        "mp4".to_string()
    }
}

pub open spec fn clamp_static_ms(ms: Option<u64>) -> u64 {
    let v = match ms {
        Some(v) => v,
        None => DEFAULT_STATIC_MS,
    };
    if v < MIN_STATIC_MS {
        MIN_STATIC_MS
    } else if v > MAX_STATIC_MS {
        MAX_STATIC_MS
    } else {
        v
    }
}

pub open spec fn opt_view(o: Option<String>) -> Option<Seq<char>> {
    match o {
        Some(s) => Some(s@),
        None => None,
    }
}

pub open spec fn output_dir_of(dir: Option<Seq<char>>) -> Option<Seq<char>> {
    match dir {
        Some(d) => if trim_both(d).len() == 0 {
            None
        } else {
            Some(trim_both(d))
        },
        None => None,
    }
}

/// Whether `a` and `b` hold the same characters.
pub fn same_chars(a: &[char], b: &[char]) -> (r: bool)
    ensures
        r == (a@ == b@),
{
    if a.len() != b.len() {
        return false;
    }
    let r = occurs_at_exec(a, b, 0);
    assert(a@.subrange(0, b@.len() as int) == a@);
    r
}

fn trimmed_string(s: &String) -> (r: String)
    ensures
        r@ == trim_both(s@),
{
    let chars = chars_of(s.as_str());
    let t = trim_chars(chars.as_slice());
    string_of(t.as_slice())
}

impl ConversionSettings {
    /// The settings for a job's options: the output directory trimmed (none where
    /// empty), the quality preset, `mp4` unless `mov` is asked for, the name
    /// template trimmed (default `{name}`), the sequence number (default 1), and
    /// the still-image time (default one second) held to 0.1 s through 60 s.
    pub fn from_options(options: &ConvertOptions) -> (r: ConversionSettings)
        ensures
            opt_view(r.output_dir) == output_dir_of(opt_view(options.output_dir)),
            (r.crf, r.preset@) == quality_preset(opt_view(options.quality)),
            r.fps == options.fps,
            opt_view(r.background) == opt_view(options.background),
            r.output_format@ == output_format_of(opt_view(options.output_format)),
            r.output_name_template@ == match options.output_name_template {
                Some(t) => trim_both(t@),
                None => "{name}"@,
            },
            r.sequence == match options.sequence {
                Some(n) => n,
                None => 1u32,
            },
            r.static_duration_ms == clamp_static_ms(options.static_duration_ms),
    {
        broadcast use vstd::string::to_string_from_display_ensures_for_str;

        let output_dir = match &options.output_dir {
            Some(d) => {
                let chars = chars_of(d.as_str());
                let t = trim_chars(chars.as_slice());
                if t.len() == 0 {
                    None
                } else {
                    Some(string_of(t.as_slice()))
                }
            },
            None => None,
        };
        let (crf, preset) = match &options.quality {
            Some(q) => {
                let chars = chars_of(q.as_str());
                let lower = string_of(to_lower(chars.as_slice()).as_slice());
                quality_preset_for(lower.as_str())
            },
            None => (12u8, "slow".to_string()),
        };
        let output_format = match &options.output_format {
            Some(f) => {
                let chars = chars_of(f.as_str());
                let lower = string_of(to_lower(chars.as_slice()).as_slice());
                output_format_for(lower.as_str())
            },
            None => "mp4".to_string(),
        };
        let output_name_template = match &options.output_name_template {
            Some(t) => trimmed_string(t),
            None => "{name}".to_string(),
        };
        let sequence = match options.sequence {
            Some(n) => n,
            None => 1,
        };
        let ms = match options.static_duration_ms {
            Some(v) => v,
            None => DEFAULT_STATIC_MS,
        };
        let static_duration_ms = if ms < MIN_STATIC_MS {
            MIN_STATIC_MS
        } else if ms > MAX_STATIC_MS {
            MAX_STATIC_MS
        } else {
            ms
        };
        let background = match &options.background {
            Some(b) => Some(b.clone()),
            None => None,
        };
        ConversionSettings {
            output_dir,
            crf,
            preset,
            fps: options.fps,
            background,
            output_format,
            output_name_template,
            sequence,
            static_duration_ms,
        }
    }

    /// The canvas's starting colour: the background colour where one is set and
    /// reads as a hex colour, else opaque white.
    pub fn background_rgba(&self) -> (r: Rgba8)
        ensures
            r == background_of(opt_view(self.background)),
    {
        match &self.background {
            Some(c) => match parse_hex_color(c.as_str()) {
                Some(p) => p,
                None => Rgba8 { r: 255, g: 255, b: 255, a: 255 },
            },
            None => Rgba8 { r: 255, g: 255, b: 255, a: 255 },
        }
    }
}

pub open spec fn background_of(bg: Option<Seq<char>>) -> Rgba8 {
    match bg {
        Some(c) => match hex_color(c) {
            Some(p) => p,
            None => Rgba8 { r: 255, g: 255, b: 255, a: 255 },
        },
        None => Rgba8 { r: 255, g: 255, b: 255, a: 255 },
    }
}

pub open spec fn pad_filter() -> Seq<char> {
    "pad=ceil(iw/2)*2:ceil(ih/2)*2"@
}

/// The video filter: padding to even sides, preceded by laying the frames on
/// the background colour where one is set and reads as a hex colour.
pub open spec fn filter_of(bg: Option<Seq<char>>) -> Seq<char> {
    match bg {
        Some(c) => if hex_color(c) is Some {
            "format=rgba,color=c=#"@ + color_digits(c) + ":s=iw:ih[bg];[bg][0:v]overlay=0:0,"@
                + pad_filter()
        } else {
            pad_filter()
        },
        None => pad_filter(),
    }
}

/// The ffmpeg video filter for a job's settings.
pub fn build_ffmpeg_filter(settings: &ConversionSettings) -> (r: String)
    ensures
        r@ == filter_of(opt_view(settings.background)),
{
    broadcast use vstd::string::to_string_from_display_ensures_for_str;

    match &settings.background {
        Some(c) => {
            if parse_hex_color(c.as_str()).is_some() {
                let mut v = chars_of("format=rgba,color=c=#");
                let d = color_digits_chars(c.as_str());
                append_chars(&mut v, d.as_slice());
                let mid = chars_of(":s=iw:ih[bg];[bg][0:v]overlay=0:0,");
                append_chars(&mut v, mid.as_slice());
                let pad = chars_of("pad=ceil(iw/2)*2:ceil(ih/2)*2");
                append_chars(&mut v, pad.as_slice());
                string_of(v.as_slice())
            } else {
                "pad=ceil(iw/2)*2:ceil(ih/2)*2".to_string()
            }
        },
        None => "pad=ceil(iw/2)*2:ceil(ih/2)*2".to_string(),
    }
}

} // verus!

use webpconv::compose::Rgba8;
use webpconv::encode::{
    build_concat_list, escape_concat_path, fallback_ffmpeg_args, primary_ffmpeg_args,
};
use webpconv::settings::{
    build_ffmpeg_filter, output_format_for, parse_hex_color, quality_preset_for, ConversionSettings,
    ConvertOptions,
};

fn options() -> ConvertOptions {
    ConvertOptions {
        output_dir: None,
        quality: None,
        fps: None,
        background: None,
        output_format: None,
        output_name_template: None,
        sequence: None,
        static_duration_ms: None,
    }
}

fn with_quality(q: &str) -> ConversionSettings {
    let mut o = options();
    o.quality = Some(q.to_string());
    ConversionSettings::from_options(&o)
}

#[test]
fn quality_presets() {
    let s = with_quality("balanced");
    assert_eq!((s.crf, s.preset.as_str()), (18, "medium"));
    let s = with_quality("BALANCED");
    assert_eq!((s.crf, s.preset.as_str()), (18, "medium"));
    let s = with_quality("small");
    assert_eq!((s.crf, s.preset.as_str()), (24, "fast"));
    let s = with_quality("Small");
    assert_eq!((s.crf, s.preset.as_str()), (24, "fast"));
    let s = with_quality("high");
    assert_eq!((s.crf, s.preset.as_str()), (12, "slow"));
    let s = with_quality("whatever");
    assert_eq!((s.crf, s.preset.as_str()), (12, "slow"));
    let s = ConversionSettings::from_options(&options());
    assert_eq!((s.crf, s.preset.as_str()), (12, "slow"));
}

#[test]
fn option_defaults_and_clamping() {
    let s = ConversionSettings::from_options(&options());
    assert_eq!(s.output_dir, None);
    assert_eq!(s.output_format, "mp4");
    assert_eq!(s.output_name_template, "{name}");
    assert_eq!(s.sequence, 1);
    assert_eq!(s.static_duration_ms, 1000);
    let mut o = options();
    o.output_dir = Some("  /videos  ".to_string());
    o.output_format = Some("MOV".to_string());
    o.output_name_template = Some("  {name}-{counter} ".to_string());
    o.sequence = Some(7);
    o.static_duration_ms = Some(5);
    o.fps = Some(24);
    let s = ConversionSettings::from_options(&o);
    assert_eq!(s.output_dir, Some("/videos".to_string()));
    assert_eq!(s.output_format, "mov");
    assert_eq!(s.output_name_template, "{name}-{counter}");
    assert_eq!(s.sequence, 7);
    assert_eq!(s.static_duration_ms, 100);
    assert_eq!(s.fps, Some(24));
    o.output_dir = Some("   ".to_string());
    o.output_format = Some("avi".to_string());
    o.static_duration_ms = Some(120_000);
    let s = ConversionSettings::from_options(&o);
    assert_eq!(s.output_dir, None);
    assert_eq!(s.output_format, "mp4");
    assert_eq!(s.static_duration_ms, 60_000);
}

#[test]
fn hex_colors() {
    assert_eq!(parse_hex_color("#ff8000"), Some(Rgba8 { r: 255, g: 128, b: 0, a: 255 }));
    assert_eq!(parse_hex_color("  ##00112233 "), Some(Rgba8 { r: 0, g: 0x11, b: 0x22, a: 0x33 }));
    assert_eq!(parse_hex_color("AbCdEf"), Some(Rgba8 { r: 0xab, g: 0xcd, b: 0xef, a: 255 }));
    assert_eq!(parse_hex_color("#+f0000"), None);
    assert_eq!(parse_hex_color("+f+f+f"), None);
    assert_eq!(parse_hex_color("#fff"), None);
    assert_eq!(parse_hex_color("#gg0000"), None);
    assert_eq!(parse_hex_color("#éé00"), None);
    assert_eq!(parse_hex_color(""), None);
}

#[test]
fn background_rgba_defaults_to_white() {
    let s = ConversionSettings::from_options(&options());
    assert_eq!(s.background_rgba(), Rgba8 { r: 255, g: 255, b: 255, a: 255 });
    let mut o = options();
    o.background = Some("nope".to_string());
    let s = ConversionSettings::from_options(&o);
    assert_eq!(s.background_rgba(), Rgba8 { r: 255, g: 255, b: 255, a: 255 });
    o.background = Some("#102030".to_string());
    let s = ConversionSettings::from_options(&o);
    assert_eq!(s.background_rgba(), Rgba8 { r: 16, g: 32, b: 48, a: 255 });
}

#[test]
fn filter_with_and_without_background() {
    let s = ConversionSettings::from_options(&options());
    assert_eq!(build_ffmpeg_filter(&s), "pad=ceil(iw/2)*2:ceil(ih/2)*2");
    let mut o = options();
    o.background = Some(" #112233 ".to_string());
    let s = ConversionSettings::from_options(&o);
    assert_eq!(
        build_ffmpeg_filter(&s),
        "format=rgba,color=c=#112233:s=iw:ih[bg];[bg][0:v]overlay=0:0,pad=ceil(iw/2)*2:ceil(ih/2)*2"
    );
    o.background = Some("red".to_string());
    let s = ConversionSettings::from_options(&o);
    assert_eq!(build_ffmpeg_filter(&s), "pad=ceil(iw/2)*2:ceil(ih/2)*2");
}

#[test]
fn concat_paths_escape_quotes() {
    assert_eq!(escape_concat_path("/tmp/it's.png"), "/tmp/it'\\''s.png");
    assert_eq!(escape_concat_path("plain"), "plain");
    let list = build_concat_list(&vec![("/a'b.png".to_string(), 0), ("/c.png".to_string(), 1234)]);
    assert_eq!(
        list,
        "file '/a'\\''b.png'\nfile '/c.png'\nduration 1.234000\nfile '/c.png'"
    );
    assert_eq!(build_concat_list(&vec![]), "");
}

#[test]
fn fallback_args_with_rate() {
    let mut o = options();
    o.fps = Some(15);
    o.static_duration_ms = Some(2500);
    let s = ConversionSettings::from_options(&o);
    let args = fallback_ffmpeg_args(&s, 10, 10, 1, "/t/c1.png", "/t/c%04d.png", "", "/o.mp4");
    let expected: Vec<&str> = vec![
        "-hide_banner", "-loglevel", "error", "-loop", "1", "-t", "2.5", "-i", "/t/c1.png",
        "-an", "-c:v", "libx264", "-pix_fmt", "yuv420p", "-profile:v", "high", "-level", "4.1",
        "-vf", "scale=10:10", "-vsync", "cfr", "-tune", "animation", "-preset", "slow", "-crf",
        "12", "-movflags", "+faststart", "-y", "/o.mp4",
    ];
    assert_eq!(args, expected);
    let args = fallback_ffmpeg_args(&s, 11, 9, 4, "/t/c1.png", "/t/c%04d.png", "", "/o.mp4");
    assert_eq!(&args[3..7], &["-framerate", "15", "-i", "/t/c%04d.png"]);
    assert_eq!(args[17], "scale=12:10");
}

#[test]
fn primary_args_for_still_and_animation() {
    let s = ConversionSettings::from_options(&options());
    let args = primary_ffmpeg_args(&s, false, "/in.webp", "/out.mp4");
    let expected: Vec<&str> = vec![
        "-hide_banner", "-loglevel", "error", "-loop", "1", "-t", "1", "-r", "30", "-i",
        "/in.webp", "-an", "-c:v", "libx264", "-pix_fmt", "yuv420p", "-profile:v", "high",
        "-level", "4.1", "-vf", "pad=ceil(iw/2)*2:ceil(ih/2)*2", "-tune", "animation", "-preset",
        "slow", "-crf", "12", "-movflags", "+faststart", "-y", "/out.mp4",
    ];
    assert_eq!(args, expected);
    let args = primary_ffmpeg_args(&s, true, "/in.webp", "/out.mp4");
    assert_eq!(&args[3..5], &["-i", "/in.webp"]);
    let mut o = options();
    o.fps = Some(25);
    o.quality = Some("small".to_string());
    let s = ConversionSettings::from_options(&o);
    let args = primary_ffmpeg_args(&s, true, "/in.webp", "/out.mp4");
    assert_eq!(&args[3..7], &["-r", "25", "-i", "/in.webp"]);
    assert!(args.windows(2).any(|w| w[0] == "-crf" && w[1] == "24"));
}

#[test]
fn encoder_arguments_are_repeatable() {
    let s = ConversionSettings::from_options(&options());
    let a = fallback_ffmpeg_args(&s, 101, 51, 3, "/t/1.png", "/t/%04d.png", "/t/c.txt", "/o.mp4");
    let b = fallback_ffmpeg_args(&s, 101, 51, 3, "/t/1.png", "/t/%04d.png", "/t/c.txt", "/o.mp4");
    assert_eq!(a, b);
}

#[test]
fn lower_case_names_map_to_presets() {
    assert_eq!(quality_preset_for("balanced"), (18, "medium".to_string()));
    assert_eq!(quality_preset_for("small"), (24, "fast".to_string()));
    assert_eq!(quality_preset_for("Small"), (12, "slow".to_string()));
    assert_eq!(quality_preset_for(""), (12, "slow".to_string()));
    assert_eq!(output_format_for("mov"), "mov");
    assert_eq!(output_format_for("MOV"), "mp4");
}

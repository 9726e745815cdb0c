use webpconv::compose::{
    clear_rect, compose_frames, compose_step, composite_frame, compositing_progress, new_canvas,
    Raster, Rgba8,
};
use webpconv::encode::{build_concat_list, fallback_ffmpeg_args};
use webpconv::parse::FrameInfo;
use webpconv::settings::{ConversionSettings, ConvertOptions};

fn px(r: u8, g: u8, b: u8, a: u8) -> Rgba8 {
    Rgba8 { r, g, b, a }
}

fn info(ox: usize, oy: usize, dur: u64, dispose: bool, blend: bool) -> FrameInfo {
    FrameInfo {
        offset_x: ox,
        offset_y: oy,
        duration_ms: dur,
        dispose_background: dispose,
        blend,
    }
}

fn no_options() -> ConvertOptions {
    ConvertOptions {
        output_dir: None,
        quality: None,
        fps: None,
        background: None,
        output_format: None,
        output_name_template: None,
        sequence: None,
        static_duration_ms: None,
    }
}

#[test]
fn canvas_is_rounded_to_even_and_filled() {
    let c = new_canvas(3, 5, px(1, 2, 3, 4));
    assert_eq!((c.width, c.height), (3, 5));
    assert_eq!((c.image.width, c.image.height), (4, 6));
    assert!(c.image.pixels.iter().all(|p| *p == px(1, 2, 3, 4)));
}

#[test]
fn overwrite_replaces_alpha_and_clips() {
    let mut c = new_canvas(4, 4, px(255, 255, 255, 255));
    let f = Raster::filled(3, 3, px(10, 20, 30, 0));
    composite_frame(&mut c, &f, 2, 2, false);
    for y in 0..4u32 {
        for x in 0..4u32 {
            let expected = if x >= 2 && y >= 2 { px(10, 20, 30, 0) } else { px(255, 255, 255, 255) };
            assert_eq!(c.image.pixel(x, y), expected, "at {} {}", x, y);
        }
    }
}

#[test]
fn overwrite_stays_inside_the_logical_canvas() {
    let mut c = new_canvas(3, 3, px(0, 0, 0, 255));
    let f = Raster::filled(4, 4, px(9, 9, 9, 9));
    composite_frame(&mut c, &f, 0, 0, false);
    assert_eq!(c.image.pixel(2, 2), px(9, 9, 9, 9));
    assert_eq!(c.image.pixel(3, 0), px(0, 0, 0, 255));
    assert_eq!(c.image.pixel(0, 3), px(0, 0, 0, 255));
}

#[test]
fn blend_transparent_keeps_and_opaque_replaces() {
    let mut c = new_canvas(2, 2, px(1, 2, 3, 200));
    let mut f = Raster::filled(2, 1, px(50, 60, 70, 255));
    f.pixels[1] = px(50, 60, 70, 0);
    composite_frame(&mut c, &f, 0, 0, true);
    assert_eq!(c.image.pixel(0, 0), px(50, 60, 70, 255));
    assert_eq!(c.image.pixel(1, 0), px(1, 2, 3, 200));
    assert_eq!(c.image.pixel(0, 1), px(1, 2, 3, 200));
}

#[test]
fn blend_half_alpha_mixes() {
    let mut c = new_canvas(2, 2, px(0, 0, 0, 255));
    let f = Raster::filled(1, 1, px(255, 255, 255, 128));
    composite_frame(&mut c, &f, 0, 0, true);
    let p = c.image.pixel(0, 0);
    assert!(p.a >= 254, "{:?}", p);
    assert!(p.r > 100 && p.r < 160, "{:?}", p);
}

#[test]
fn offsets_outside_canvas_change_nothing() {
    let mut c = new_canvas(4, 4, px(7, 7, 7, 7));
    let f = Raster::filled(2, 2, px(1, 1, 1, 255));
    composite_frame(&mut c, &f, 10, 1, false);
    composite_frame(&mut c, &f, 1, usize::MAX, true);
    assert!(c.image.pixels.iter().all(|p| *p == px(7, 7, 7, 7)));
}

#[test]
fn clear_rect_clears_only_clipped_rectangle() {
    let mut c = new_canvas(4, 3, px(5, 5, 5, 255));
    clear_rect(&mut c, 2, 1, 10, 10);
    for y in 0..4u32 {
        for x in 0..4u32 {
            let expected = if x >= 2 && y >= 1 && y < 3 { px(0, 0, 0, 0) } else { px(5, 5, 5, 255) };
            assert_eq!(c.image.pixel(x, y), expected, "at {} {}", x, y);
        }
    }
}

#[test]
fn disposal_happens_after_the_snapshot() {
    let mut c = new_canvas(2, 2, px(9, 9, 9, 255));
    let f = Raster::filled(1, 1, px(1, 2, 3, 255));
    let out = compose_step(&mut c, &f, &info(0, 0, 40, true, true), 2, 1000);
    assert_eq!(out.raster.pixel(0, 0), px(1, 2, 3, 255));
    assert_eq!(out.duration_ms, 40);
    assert_eq!(c.image.pixel(0, 0), px(0, 0, 0, 0));
    assert_eq!(c.image.pixel(1, 0), px(9, 9, 9, 255));
}

#[test]
fn single_frame_uses_static_duration() {
    let frames = vec![Raster::filled(2, 2, px(1, 1, 1, 255))];
    let infos = vec![info(0, 0, 70, false, true)];
    let out = compose_frames(2, 2, px(0, 0, 0, 0), &frames, &infos, 2500);
    assert_eq!(out.len(), 1);
    assert_eq!(out[0].duration_ms, 2500);
}

#[test]
fn progress_is_scaled_to_eighty() {
    assert_eq!(compositing_progress(1, 3), 27);
    assert_eq!(compositing_progress(2, 3), 53);
    assert_eq!(compositing_progress(3, 3), 80);
    assert_eq!(compositing_progress(1, 32), 3);
    assert_eq!(compositing_progress(1, 1), 80);
}

#[test]
fn rgba_bytes_round_trip() {
    let bytes: Vec<u8> = (0..16).collect();
    let r = Raster::from_rgba_bytes(2, 2, &bytes).unwrap();
    assert_eq!(r.pixel(1, 0), px(4, 5, 6, 7));
    assert_eq!(r.to_rgba_bytes(), bytes);
    assert!(Raster::from_rgba_bytes(2, 2, &bytes[..15].to_vec()).is_none());
    assert!(Raster::from_rgba_bytes(3, 2, &bytes).is_none());
}

#[test]
fn three_frame_example() {
    let red = px(255, 0, 0, 255);
    let green = px(0, 255, 0, 255);
    let blue = px(0, 0, 255, 255);
    let white = px(255, 255, 255, 255);
    let frames = vec![
        Raster::filled(101, 51, red),
        Raster::filled(20, 10, green),
        Raster::filled(101, 51, blue),
    ];
    let infos = vec![
        info(0, 0, 100, false, true),
        info(10, 5, 150, false, true),
        info(0, 0, 200, true, true),
    ];
    let out = compose_frames(101, 51, white, &frames, &infos, 1000);
    assert_eq!(out.len(), 3);
    for f in &out {
        assert_eq!((f.raster.width, f.raster.height), (102, 52));
    }
    assert_eq!(out[0].raster.pixel(50, 25), red);
    assert_eq!(out[1].raster.pixel(12, 7), green);
    assert_eq!(out[1].raster.pixel(50, 25), red);
    assert_eq!(out[2].raster.pixel(12, 7), blue);
    assert_eq!(out[2].raster.pixel(101, 51), white);
    let durations: Vec<u64> = out.iter().map(|f| f.duration_ms).collect();
    assert_eq!(durations, vec![100, 150, 200]);

    let paths: Vec<(String, u64)> = vec![
        ("/tmp/j/composed_0001.png".to_string(), 100),
        ("/tmp/j/composed_0002.png".to_string(), 150),
        ("/tmp/j/composed_0003.png".to_string(), 200),
    ];
    let list = build_concat_list(&paths);
    let lines: Vec<&str> = list.lines().collect();
    assert_eq!(
        lines,
        vec![
            "file '/tmp/j/composed_0001.png'",
            "duration 0.100000",
            "file '/tmp/j/composed_0002.png'",
            "duration 0.150000",
            "file '/tmp/j/composed_0003.png'",
            "duration 0.200000",
            "file '/tmp/j/composed_0003.png'",
        ]
    );

    let settings = ConversionSettings::from_options(&no_options());
    let args = fallback_ffmpeg_args(
        &settings,
        101,
        51,
        3,
        "/tmp/j/composed_0001.png",
        "/tmp/j/composed_%04d.png",
        "/tmp/j/concat.txt",
        "/out/a.mp4",
    );
    let vf = args.iter().position(|a| a == "-vf").unwrap();
    assert_eq!(args[vf + 1], "scale=102:52");
    let i = args.iter().position(|a| a == "-i").unwrap();
    assert_eq!(&args[i - 4..i + 2], &["-f", "concat", "-safe", "0", "-i", "/tmp/j/concat.txt"]);
    let vs = args.iter().position(|a| a == "-vsync").unwrap();
    assert_eq!(args[vs + 1], "vfr");
}

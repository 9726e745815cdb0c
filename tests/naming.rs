use webpconv::naming::{
    candidate_file_name, ensure_unique_path, is_bare_command, strip_extension_lowered, render_output_name, replace_token, sanitize_filename,
    strip_trailing_extension,
};

#[test]
fn sanitize_replaces_separators_and_trims() {
    assert_eq!(sanitize_filename(" a/b\\c:d "), "a-b-c-d");
    assert_eq!(sanitize_filename("plain"), "plain");
    assert_eq!(sanitize_filename("   "), "");
}

#[test]
fn replace_token_both_forms() {
    assert_eq!(replace_token("{name}-[name]", "name", "clip"), "clip-clip");
    assert_eq!(replace_token("{{name}}", "name", "x"), "{x}");
    assert_eq!(replace_token("{counter}", "name", "x"), "{counter}");
    assert_eq!(replace_token("{name}{name}", "name", "{name}"), "{name}{name}");
}

#[test]
fn strip_extension_ignores_case() {
    assert_eq!(strip_trailing_extension("Clip.MP4", "mp4"), "Clip");
    assert_eq!(strip_trailing_extension("clip.mp4", "MP4"), "clip");
    assert_eq!(strip_trailing_extension("clip.mov", "mp4"), "clip.mov");
    assert_eq!(strip_trailing_extension("clip.mp4", ""), "clip.mp4");
    assert_eq!(strip_trailing_extension(".mp4", "mp4"), "");
}

#[test]
fn output_name_template() {
    assert_eq!(
        render_output_name("{name}-{counter}_{date}T{time}.{ext}", "in", 3, "mp4", "20240102", "030405"),
        "in-3_20240102T030405"
    );
    assert_eq!(render_output_name("[name]/{ext}", "a", 1, "mov", "d", "t"), "a-mov");
    assert_eq!(render_output_name("  ", "x:y", 1, "mp4", "d", "t"), "x-y");
    assert_eq!(render_output_name("{name}", "clip", 1, "mp4", "d", "t"), "clip");
}

#[test]
fn bare_commands() {
    assert!(is_bare_command("ffmpeg"));
    assert!(!is_bare_command("./ffmpeg"));
    assert!(!is_bare_command("bin\\ffmpeg"));
    assert!(!is_bare_command(""));
}

#[test]
fn candidate_names_follow_set_extension() {
    assert_eq!(candidate_file_name("clip", "mp4", 1), "clip-1.mp4");
    assert_eq!(candidate_file_name("clip", "", 12), "clip-12");
    assert_eq!(candidate_file_name("a.b", "mov", 2), "a.mov");
    assert_eq!(candidate_file_name(".x", "mp4", 3), ".x-3.mp4");
}

#[test]
fn unique_path_skips_taken_names() {
    let taken = vec!["clip.mp4".to_string(), "clip-1.mp4".to_string(), "clip-2.mp4".to_string()];
    let r = ensure_unique_path("clip.mp4".to_string(), "clip", "mp4", |n: &String| taken.contains(n));
    assert_eq!(r, Some("clip-3.mp4".to_string()));
    let r = ensure_unique_path("new.mp4".to_string(), "new", "mp4", |n: &String| taken.contains(n));
    assert_eq!(r, Some("new.mp4".to_string()));
}

#[test]
fn strip_with_given_lower_case() {
    assert_eq!(strip_extension_lowered("Clip.MP4", "clip.mp4", "MP4", "mp4"), "Clip");
    assert_eq!(strip_extension_lowered("Clip.MP4", "Clip.MP4", "MP4", "mp4"), "Clip.MP4");
    assert_eq!(strip_extension_lowered("a.mp4", "a.mp4", "", ""), "a.mp4");
}

#[test]
fn unique_path_free_name_is_kept_and_first_free_index_wins() {
    let taken = vec!["v.mov".to_string(), "v-2.mov".to_string()];
    let r = ensure_unique_path("v.mov".to_string(), "v", "mov", |n: &String| taken.contains(n));
    assert_eq!(r, Some("v-1.mov".to_string()));
}

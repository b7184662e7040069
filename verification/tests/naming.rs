use fdm::link::Link;
use fdm::naming::{
    control_path, filename_from_content_disposition, filename_from_url, percent_decode,
    sanitize_filename, to_extended_path, unique_path, FilePath,
};

#[test]
fn strips_path_traversal() {
    assert_eq!(sanitize_filename("../../etc/passwd"), "passwd");
    assert_eq!(sanitize_filename(r"..\..\windows\evil.dll"), "evil.dll");
}

#[test]
fn escapes_reserved_device_names() {
    assert_eq!(sanitize_filename("CON"), "_CON");
    assert_eq!(sanitize_filename("nul.txt"), "_nul.txt");
    // Not reserved — only exact stems count.
    assert_eq!(sanitize_filename("console.log"), "console.log");
}

#[test]
fn removes_trailing_dots_and_spaces() {
    assert_eq!(sanitize_filename("report.pdf. "), "report.pdf");
}

#[test]
fn empty_input_gets_a_usable_name() {
    assert_eq!(sanitize_filename("   "), "download");
    assert_eq!(sanitize_filename(".."), "download");
}

#[test]
fn content_disposition_prefers_rfc5987() {
    let h = "attachment; filename=\"fallback.txt\"; filename*=UTF-8''r%C3%A9sum%C3%A9.pdf";
    assert_eq!(
        filename_from_content_disposition(h).as_deref(),
        Some("résumé.pdf")
    );
}

#[test]
fn content_disposition_plain_form() {
    let h = "attachment; filename=\"my file.zip\"";
    assert_eq!(
        filename_from_content_disposition(h).as_deref(),
        Some("my file.zip")
    );
}

#[test]
fn url_filename_ignores_query() {
    let u = Link::parse("https://example.com/files/setup.exe?token=abc123").unwrap();
    assert_eq!(filename_from_url(&u), "setup.exe");
}

#[test]
fn url_without_path_falls_back_to_host() {
    let u = Link::parse("https://example.com/").unwrap();
    assert_eq!(filename_from_url(&u), "example.com");
}

#[test]
fn a_name_is_cut_between_characters_and_keeps_its_extension() {
    let long = format!("{}.bin", "x".repeat(400));
    let cut = sanitize_filename(&long);
    assert_eq!(cut, format!("{}.bin", "x".repeat(196)));

    let wide = format!("{}.bin", "é".repeat(200));
    let cut = sanitize_filename(&wide);
    assert!(cut.len() <= 200, "{}", cut.len());
    assert!(cut.ends_with(".bin"));
    assert!(cut.starts_with("éé"));
}

#[test]
fn forbidden_characters_are_replaced() {
    assert_eq!(sanitize_filename("a<b>c:d\"e|f?g*h.txt"), "a_b_c_d_e_f_g_h.txt");
    assert_eq!(sanitize_filename("tab\there"), "tab_here");
}

#[test]
fn percent_decoding_takes_whole_pairs_only() {
    assert_eq!(percent_decode("a%20b").as_deref(), Some("a b"));
    assert_eq!(percent_decode("100%").as_deref(), Some("100%"));
    assert_eq!(percent_decode("%zz"), None);
    assert_eq!(percent_decode("a%z").as_deref(), Some("a%z"));
    assert_eq!(percent_decode("%FF"), None);
}

#[test]
fn a_taken_name_gets_a_number() {
    let taken = vec!["a.zip".to_string(), "a (2).zip".to_string()];
    let got = unique_path("/d", "a.zip", |p: &FilePath| taken.contains(&p.name), 7, false);
    assert_eq!(got, FilePath::new("/d", "a (3).zip"));
    let free = unique_path("/d", "b.zip", |p: &FilePath| taken.contains(&p.name), 7, false);
    assert_eq!(free, FilePath::new("/d", "b.zip"));
    let bare = unique_path("/d", "a", |p: &FilePath| p.name == "a", 7, false);
    assert_eq!(bare, FilePath::new("/d", "a (2)"));
}

#[test]
fn long_paths_are_extended_on_windows_only() {
    let long = format!(r"C:\{}", "x".repeat(240));
    assert_eq!(to_extended_path(&long, true, true), format!(r"\\?\{long}"));
    assert_eq!(to_extended_path(&long, true, false), long);
    assert_eq!(to_extended_path(&long, false, true), long);
    assert_eq!(to_extended_path(r"C:\a\b", true, true), r"C:\a\b");
    let already = format!(r"\\?\{long}");
    assert_eq!(to_extended_path(&already, true, true), already);
}

#[test]
fn the_control_file_stands_beside_the_part_file() {
    assert_eq!(
        control_path(&FilePath::new("/t", "x.part")),
        FilePath::new("/t", "x.part.fdm")
    );
}

#[test]
fn a_cut_name_does_not_end_in_what_windows_strips() {
    let spaced = format!("{} {}", "a".repeat(199), "b".repeat(10));
    assert_eq!(sanitize_filename(&spaced), "a".repeat(199));
    // Nothing but a dot and spaces would be left.
    let hollow = format!(".{}b", " ".repeat(200));
    assert_eq!(sanitize_filename(&hollow), "download");
    // The space before the extension stays.
    let inner = format!("{} {}.txt", "a".repeat(195), "b".repeat(10));
    assert_eq!(sanitize_filename(&inner), format!("{} .txt", "a".repeat(195)));
}

#[test]
fn a_cut_name_does_not_become_a_device() {
    let ext = "x".repeat(196);
    let got = sanitize_filename(&format!("console.{ext}"));
    assert_eq!(got, format!("_co.{ext}"));
    assert_eq!(got.len(), 200);
}

#[test]
fn a_taken_name_is_numbered_before_its_extension_on_either_platform() {
    let first = |p: &FilePath| p.name == r"b.d\a";
    assert_eq!(unique_path("/d", r"b.d\a", first, 7, true).name, "a (2)");
    assert_eq!(unique_path("/d", r"b.d\a", first, 7, false).name, r"b (2).d\a");
}

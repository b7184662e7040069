use fdm::categorize::{classify, from_extension, from_magic, from_mime, Category};

#[test]
fn extension_wins_over_mime() {
    // Servers routinely mislabel installers as octet-stream.
    assert_eq!(
        classify("setup.exe", Some("application/octet-stream"), &[], false),
        Category::Programs
    );
}

#[test]
fn mime_used_when_extension_missing() {
    assert_eq!(classify("download", Some("video/mp4"), &[], false), Category::Video);
}

#[test]
fn magic_used_when_extension_and_mime_useless() {
    assert_eq!(
        classify("download", Some("application/octet-stream"), b"%PDF-1.7", false),
        Category::Documents
    );
}

#[test]
fn riff_form_type_disambiguates() {
    let mut wav = Vec::from(*b"RIFF");
    wav.extend_from_slice(&[0, 0, 0, 0]);
    wav.extend_from_slice(b"WAVE");
    assert_eq!(from_magic(&wav), Some(Category::Music));

    let mut avi = Vec::from(*b"RIFF");
    avi.extend_from_slice(&[0, 0, 0, 0]);
    avi.extend_from_slice(b"AVI ");
    assert_eq!(from_magic(&avi), Some(Category::Video));
}

#[test]
fn unknown_falls_through_to_other() {
    assert_eq!(classify("mystery", None, &[], false), Category::Other);
}

#[test]
fn ooxml_is_a_document_not_an_archive() {
    assert_eq!(
        from_mime("application/vnd.openxmlformats-officedocument.wordprocessingml.document"),
        Some(Category::Documents)
    );
}

#[test]
fn every_listed_extension_leads_to_its_category() {
    for category in Category::all() {
        for ext in category.default_extensions() {
            assert_eq!(from_extension(ext), Some(category), "{ext}");
            assert_eq!(from_extension(&format!(".{}", ext.to_uppercase())), Some(category));
        }
    }
    assert_eq!(from_extension(""), None);
    assert_eq!(from_extension("..."), None);
    assert_eq!(from_extension("nope"), None);
}

#[test]
fn mime_parameters_and_case_do_not_matter() {
    assert_eq!(from_mime("Text/Plain; charset=utf-8"), Some(Category::Documents));
    assert_eq!(from_mime(" IMAGE/SVG+XML "), Some(Category::Images));
    assert_eq!(from_mime("application/x-7z-compressed"), Some(Category::Compressed));
    assert_eq!(from_mime("application/x-msi"), Some(Category::Programs));
    assert_eq!(from_mime("application/dash+xml"), Some(Category::Video));
    assert_eq!(from_mime("audio/ogg"), Some(Category::Music));
    assert_eq!(from_mime("binary/octet-stream"), None);
    assert_eq!(from_mime("application/json"), None);
    assert_eq!(from_mime(""), None);
}

#[test]
fn signatures_name_their_category() {
    let cases: Vec<(&[u8], Option<Category>)> = vec![
        (b"%PD", None),
        (b"\0\0\0\0ftypM4A ", Some(Category::Music)),
        (b"\0\0\0\0ftypheic", Some(Category::Images)),
        (b"\0\0\0\0ftypisom", Some(Category::Video)),
        (b"RIFF\0\0\0\0WEBP", Some(Category::Images)),
        (b"RIFF\0\0\0\0XXXX", Some(Category::Other)),
        (b"PK\x03\x04", Some(Category::Compressed)),
        (b"\x1f\x8b\x08\x00", Some(Category::Compressed)),
        (b"\x89PNG", Some(Category::Images)),
        (b"ID3\x04", Some(Category::Music)),
        (b"\x1a\x45\xdf\xa3", Some(Category::Video)),
        (b"MZ\x90\x00", Some(Category::Programs)),
        (b"\x7fELF", Some(Category::Programs)),
        (b"????", None),
    ];
    for (head, want) in cases {
        assert_eq!(from_magic(head), want, "{head:?}");
    }
}

#[test]
fn every_category_has_its_own_folder() {
    let folders: Vec<&'static str> = Category::all().iter().map(|c| c.folder()).collect();
    assert_eq!(
        folders,
        vec!["Documents", "Video", "Music", "Images", "Compressed", "Programs", "Other"]
    );
}

#[test]
fn a_folder_is_told_from_a_name_as_the_platform_does() {
    assert_eq!(classify(r"dir.zip\", None, &[], true), Category::Compressed);
    assert_eq!(classify(r"dir.zip\", None, &[], false), Category::Other);
    assert_eq!(classify(r"dir.zip\notes", None, &[], true), Category::Other);
    assert_eq!(classify("dir.zip/", None, &[], true), Category::Compressed);
    assert_eq!(classify("C:.zip", None, &[], true), Category::Other);
    assert_eq!(classify("C:a.zip", None, &[], true), Category::Compressed);
    assert_eq!(classify("C:.zip", None, &[], false), Category::Compressed);
}

#[test]
fn an_extension_stands_in_one_list() {
    for category in Category::all() {
        for ext in category.default_extensions() {
            let homes: Vec<Category> = Category::all()
                .into_iter()
                .filter(|c| c.default_extensions().contains(&ext))
                .collect();
            assert_eq!(homes, vec![category], "{ext}");
        }
    }
}

#[test]
fn a_server_and_its_share_are_no_folder() {
    let other = |name| assert_eq!(classify(name, None, &[], true), Category::Other, "{name}");
    let packed = |name| assert_eq!(classify(name, None, &[], true), Category::Compressed, "{name}");
    other(r"\\server\share.zip");
    other(r"//server/share.zip");
    packed(r"\\server\share\a.zip");
    packed(r"\\server.zip");
    packed(r"\\\server\share.zip");
    other(r"\\.\device.zip");
    packed(r"\\.\device\a.zip");
    other(r"\\?\any.zip");
    other(r"\\?\UNC\server\share.zip");
    packed(r"\\?\UNC\server\share\a.zip");
    packed(r"\\?\C:\a.zip");
    packed(r"\\?\C:\b/a.zip");
    other(r"\\?\C:\a.zip\.");
    packed(r"C:\a.zip\.");
}

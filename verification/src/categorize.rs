//! Decides which folder a finished download belongs in.
//!
//! Classification order is deliberate: **extension, then MIME type, then magic
//! bytes**. Extensions are the user's mental model so they win when present,
//! but they lie often enough that the `Content-Type` header and then the first
//! bytes of the file are consulted.

use vstd::prelude::*;

use crate::naming;
use crate::text;
use crate::text::Fringe;

verus! {

#[derive(Debug, Clone, Copy, PartialEq, Eq, Structural)]
pub enum Category {
    Documents,
    Video,
    Music,
    Images,
    Compressed,
    Programs,
    Other,
}

impl Category {
    /// Subfolder name under the download root.
    pub open spec fn folder_name(self) -> Seq<char> {
        match self {
            Category::Documents => "Documents"@,
            Category::Video => "Video"@,
            Category::Music => "Music"@,
            Category::Images => "Images"@,
            Category::Compressed => "Compressed"@,
            Category::Programs => "Programs"@,
            Category::Other => "Other"@,
        }
    }

    /// Subfolder name under the download root.
    pub fn folder(&self) -> (r: &'static str)
        ensures
            r@ == self.folder_name(),
    {
        match self {
            Category::Documents => "Documents",
            Category::Video => "Video",
            Category::Music => "Music",
            Category::Images => "Images",
            Category::Compressed => "Compressed",
            Category::Programs => "Programs",
            Category::Other => "Other",
        }
    }

    /// The extensions filed under a category.
    pub open spec fn extensions(self) -> Seq<Seq<char>> {
        match self {
            Category::Documents => seq![
                "pdf"@, "doc"@, "docx"@, "xls"@, "xlsx"@, "ppt"@, "pptx"@, "txt"@, "rtf"@, "odt"@,
                "ods"@, "odp"@, "csv"@, "epub"@, "mobi"@, "azw3"@, "djvu"@, "tex"@, "md"@,
            ],
            Category::Video => seq![
                "mp4"@, "mkv"@, "avi"@, "mov"@, "wmv"@, "flv"@, "webm"@, "m4v"@, "mpg"@, "mpeg"@,
                "ts"@, "m2ts"@, "vob"@, "3gp"@, "ogv"@,
            ],
            Category::Music => seq![
                "mp3"@, "flac"@, "wav"@, "aac"@, "m4a"@, "ogg"@, "opus"@, "wma"@, "aiff"@, "alac"@,
                "mid"@, "midi"@,
            ],
            Category::Images => seq![
                "jpg"@, "jpeg"@, "png"@, "gif"@, "webp"@, "svg"@, "bmp"@, "tif"@, "tiff"@, "heic"@,
                "heif"@, "avif"@, "ico"@, "psd"@, "raw"@, "cr2"@, "nef"@,
            ],
            Category::Compressed => seq![
                "zip"@, "rar"@, "7z"@, "tar"@, "gz"@, "bz2"@, "xz"@, "zst"@, "iso"@, "img"@, "cab"@,
                "arj"@, "lz"@, "lzma"@, "tgz"@,
            ],
            Category::Programs => seq![
                "exe"@, "msi"@, "msix"@, "appx"@, "bat"@, "cmd"@, "ps1"@, "apk"@, "deb"@, "rpm"@,
                "dmg"@, "pkg"@, "appimage"@, "jar"@,
            ],
            Category::Other => seq![],
        }
    }

    /// Default extension list for a category. Seed data, not policy.
    pub fn default_extensions(&self) -> (r: Vec<&'static str>)
        ensures
            text::literals(r@) == self.extensions(),
    {
        let r: Vec<&'static str> = match self {
            Category::Documents => vec![
                "pdf", "doc", "docx", "xls", "xlsx", "ppt", "pptx", "txt", "rtf", "odt", "ods",
                "odp", "csv", "epub", "mobi", "azw3", "djvu", "tex", "md",
            ],
            Category::Video => vec![
                "mp4", "mkv", "avi", "mov", "wmv", "flv", "webm", "m4v", "mpg", "mpeg", "ts",
                "m2ts", "vob", "3gp", "ogv",
            ],
            Category::Music => vec![
                "mp3", "flac", "wav", "aac", "m4a", "ogg", "opus", "wma", "aiff", "alac", "mid",
                "midi",
            ],
            Category::Images => vec![
                "jpg", "jpeg", "png", "gif", "webp", "svg", "bmp", "tif", "tiff", "heic", "heif",
                "avif", "ico", "psd", "raw", "cr2", "nef",
            ],
            Category::Compressed => vec![
                "zip", "rar", "7z", "tar", "gz", "bz2", "xz", "zst", "iso", "img", "cab", "arj",
                "lz", "lzma", "tgz",
            ],
            Category::Programs => vec![
                "exe", "msi", "msix", "appx", "bat", "cmd", "ps1", "apk", "deb", "rpm", "dmg",
                "pkg", "appimage", "jar",
            ],
            Category::Other => Vec::new(),
        };
        assert(text::literals(r@) =~= self.extensions());
        r
    }

    /// Every category, in the order they are searched.
    pub open spec fn in_order() -> Seq<Category> {
        seq![
            Category::Documents,
            Category::Video,
            Category::Music,
            Category::Images,
            Category::Compressed,
            Category::Programs,
            Category::Other,
        ]
    }

    /// Every category, in the order they are searched.
    pub fn all() -> (r: Vec<Category>)
        ensures
            r@ == Category::in_order(),
    {
        let r: Vec<Category> = vec![
            Category::Documents,
            Category::Video,
            Category::Music,
            Category::Images,
            Category::Compressed,
            Category::Programs,
            Category::Other,
        ];
        assert(r@ =~= Category::in_order());
        r
    }
}

/// Whether these characters spell one of the listed strings.
fn is_listed(s: &[char], list: &Vec<&'static str>) -> (r: bool)
    ensures
        r == text::literals(list@).contains(s@),
{
    let mut i: usize = 0;
    while i < list.len()
        invariant
            i <= list.len(),
            forall|k: int| 0 <= k < i ==> (#[trigger] text::literals(list@)[k]) != s@,
        decreases list.len() - i,
    {
        assert(text::literals(list@)[i as int] == list@[i as int]@);
        if text::spells(s, list[i]) {
            assert(text::literals(list@)[i as int] == s@);
            return true;
        }
        i = i + 1;
    }
    false
}

/// The first category, from position `i` on, that lists an extension.
pub open spec fn category_from(ext: Seq<char>, i: int) -> Option<Category>
    decreases Category::in_order().len() - i,
{
    if i < 0 || i >= Category::in_order().len() {
        None
    } else if Category::in_order()[i].extensions().contains(ext) {
        Some(Category::in_order()[i])
    } else {
        category_from(ext, i + 1)
    }
}

/// The category of an extension, with or without leading dots, in any case.
pub open spec fn category_of_extension(ext: Seq<char>) -> Option<Category> {
    let bare = text::lowered(text::trimmed_start(ext, Fringe::Dot));
    if bare.len() == 0 {
        None
    } else {
        category_from(bare, 0)
    }
}

/// Classify by file extension alone. `None` when the extension is unknown.
pub fn from_extension(ext: &str) -> (r: Option<Category>)
    ensures
        r == category_of_extension(ext@),
{
    let chars = text::chars_of(ext);
    let bare = text::to_lower(text::trim_start(chars.as_slice(), Fringe::Dot));
    if bare.len() == 0 {
        return None;
    }
    let all: Vec<Category> = Category::all();
    let mut i: usize = 0;
    while i < all.len()
        invariant
            i <= all.len(),
            all@ == Category::in_order(),
            bare@ == text::lowered(text::trimmed_start(ext@, Fringe::Dot)),
            bare@.len() > 0,
            category_from(bare@, 0) == category_from(bare@, i as int),
        decreases all.len() - i,
    {
        let extensions: Vec<&'static str> = all[i].default_extensions();
        if is_listed(bare.as_slice(), &extensions) {
            return Some(all[i]);
        }
        i = i + 1;
    }
    None
}

/// The first five letters of an extension as one number; they tell every two
/// listed extensions apart.
spec fn letters(ext: Seq<char>) -> int {
    spell(letter(ext, 0), letter(ext, 1), letter(ext, 2), letter(ext, 3), letter(ext, 4))
}

spec fn letter(ext: Seq<char>, i: int) -> char {
    if i < ext.len() {
        ext[i]
    } else {
        '\0'
    }
}

spec fn spell(a: char, b: char, c: char, d: char, e: char) -> int {
    a as int + 0x100 * (b as int) + 0x1_0000 * (c as int) + 0x100_0000 * (d as int)
        + 0x1_0000_0000 * (e as int)
}

proof fn lemma_documents(ext: Seq<char>)
    requires
        Category::Documents.extensions().contains(ext),
    ensures
        ext.len() > 0,
        ({
            let n = letters(ext);
            ||| n == spell('p', 'd', 'f', '\0', '\0')
            ||| n == spell('d', 'o', 'c', '\0', '\0')
            ||| n == spell('d', 'o', 'c', 'x', '\0')
            ||| n == spell('x', 'l', 's', '\0', '\0')
            ||| n == spell('x', 'l', 's', 'x', '\0')
            ||| n == spell('p', 'p', 't', '\0', '\0')
            ||| n == spell('p', 'p', 't', 'x', '\0')
            ||| n == spell('t', 'x', 't', '\0', '\0')
            ||| n == spell('r', 't', 'f', '\0', '\0')
            ||| n == spell('o', 'd', 't', '\0', '\0')
            ||| n == spell('o', 'd', 's', '\0', '\0')
            ||| n == spell('o', 'd', 'p', '\0', '\0')
            ||| n == spell('c', 's', 'v', '\0', '\0')
            ||| n == spell('e', 'p', 'u', 'b', '\0')
            ||| n == spell('m', 'o', 'b', 'i', '\0')
            ||| n == spell('a', 'z', 'w', '3', '\0')
            ||| n == spell('d', 'j', 'v', 'u', '\0')
            ||| n == spell('t', 'e', 'x', '\0', '\0')
            ||| n == spell('m', 'd', '\0', '\0', '\0')
        }),
{
    reveal_strlit("pdf");
    reveal_strlit("doc");
    reveal_strlit("docx");
    reveal_strlit("xls");
    reveal_strlit("xlsx");
    reveal_strlit("ppt");
    reveal_strlit("pptx");
    reveal_strlit("txt");
    reveal_strlit("rtf");
    reveal_strlit("odt");
    reveal_strlit("ods");
    reveal_strlit("odp");
    reveal_strlit("csv");
    reveal_strlit("epub");
    reveal_strlit("mobi");
    reveal_strlit("azw3");
    reveal_strlit("djvu");
    reveal_strlit("tex");
    reveal_strlit("md");
    let list = Category::Documents.extensions();
    let i = choose|i: int| 0 <= i < list.len() && list[i] == ext;
    assert(list[i] == ext);
}

proof fn lemma_video(ext: Seq<char>)
    requires
        Category::Video.extensions().contains(ext),
    ensures
        ext.len() > 0,
        ({
            let n = letters(ext);
            ||| n == spell('m', 'p', '4', '\0', '\0')
            ||| n == spell('m', 'k', 'v', '\0', '\0')
            ||| n == spell('a', 'v', 'i', '\0', '\0')
            ||| n == spell('m', 'o', 'v', '\0', '\0')
            ||| n == spell('w', 'm', 'v', '\0', '\0')
            ||| n == spell('f', 'l', 'v', '\0', '\0')
            ||| n == spell('w', 'e', 'b', 'm', '\0')
            ||| n == spell('m', '4', 'v', '\0', '\0')
            ||| n == spell('m', 'p', 'g', '\0', '\0')
            ||| n == spell('m', 'p', 'e', 'g', '\0')
            ||| n == spell('t', 's', '\0', '\0', '\0')
            ||| n == spell('m', '2', 't', 's', '\0')
            ||| n == spell('v', 'o', 'b', '\0', '\0')
            ||| n == spell('3', 'g', 'p', '\0', '\0')
            ||| n == spell('o', 'g', 'v', '\0', '\0')
        }),
{
    reveal_strlit("mp4");
    reveal_strlit("mkv");
    reveal_strlit("avi");
    reveal_strlit("mov");
    reveal_strlit("wmv");
    reveal_strlit("flv");
    reveal_strlit("webm");
    reveal_strlit("m4v");
    reveal_strlit("mpg");
    reveal_strlit("mpeg");
    reveal_strlit("ts");
    reveal_strlit("m2ts");
    reveal_strlit("vob");
    reveal_strlit("3gp");
    reveal_strlit("ogv");
    let list = Category::Video.extensions();
    let i = choose|i: int| 0 <= i < list.len() && list[i] == ext;
    assert(list[i] == ext);
}

proof fn lemma_music(ext: Seq<char>)
    requires
        Category::Music.extensions().contains(ext),
    ensures
        ext.len() > 0,
        ({
            let n = letters(ext);
            ||| n == spell('m', 'p', '3', '\0', '\0')
            ||| n == spell('f', 'l', 'a', 'c', '\0')
            ||| n == spell('w', 'a', 'v', '\0', '\0')
            ||| n == spell('a', 'a', 'c', '\0', '\0')
            ||| n == spell('m', '4', 'a', '\0', '\0')
            ||| n == spell('o', 'g', 'g', '\0', '\0')
            ||| n == spell('o', 'p', 'u', 's', '\0')
            ||| n == spell('w', 'm', 'a', '\0', '\0')
            ||| n == spell('a', 'i', 'f', 'f', '\0')
            ||| n == spell('a', 'l', 'a', 'c', '\0')
            ||| n == spell('m', 'i', 'd', '\0', '\0')
            ||| n == spell('m', 'i', 'd', 'i', '\0')
        }),
{
    reveal_strlit("mp3");
    reveal_strlit("flac");
    reveal_strlit("wav");
    reveal_strlit("aac");
    reveal_strlit("m4a");
    reveal_strlit("ogg");
    reveal_strlit("opus");
    reveal_strlit("wma");
    reveal_strlit("aiff");
    reveal_strlit("alac");
    reveal_strlit("mid");
    reveal_strlit("midi");
    let list = Category::Music.extensions();
    let i = choose|i: int| 0 <= i < list.len() && list[i] == ext;
    assert(list[i] == ext);
}

proof fn lemma_images(ext: Seq<char>)
    requires
        Category::Images.extensions().contains(ext),
    ensures
        ext.len() > 0,
        ({
            let n = letters(ext);
            ||| n == spell('j', 'p', 'g', '\0', '\0')
            ||| n == spell('j', 'p', 'e', 'g', '\0')
            ||| n == spell('p', 'n', 'g', '\0', '\0')
            ||| n == spell('g', 'i', 'f', '\0', '\0')
            ||| n == spell('w', 'e', 'b', 'p', '\0')
            ||| n == spell('s', 'v', 'g', '\0', '\0')
            ||| n == spell('b', 'm', 'p', '\0', '\0')
            ||| n == spell('t', 'i', 'f', '\0', '\0')
            ||| n == spell('t', 'i', 'f', 'f', '\0')
            ||| n == spell('h', 'e', 'i', 'c', '\0')
            ||| n == spell('h', 'e', 'i', 'f', '\0')
            ||| n == spell('a', 'v', 'i', 'f', '\0')
            ||| n == spell('i', 'c', 'o', '\0', '\0')
            ||| n == spell('p', 's', 'd', '\0', '\0')
            ||| n == spell('r', 'a', 'w', '\0', '\0')
            ||| n == spell('c', 'r', '2', '\0', '\0')
            ||| n == spell('n', 'e', 'f', '\0', '\0')
        }),
{
    reveal_strlit("jpg");
    reveal_strlit("jpeg");
    reveal_strlit("png");
    reveal_strlit("gif");
    reveal_strlit("webp");
    reveal_strlit("svg");
    reveal_strlit("bmp");
    reveal_strlit("tif");
    reveal_strlit("tiff");
    reveal_strlit("heic");
    reveal_strlit("heif");
    reveal_strlit("avif");
    reveal_strlit("ico");
    reveal_strlit("psd");
    reveal_strlit("raw");
    reveal_strlit("cr2");
    reveal_strlit("nef");
    let list = Category::Images.extensions();
    let i = choose|i: int| 0 <= i < list.len() && list[i] == ext;
    assert(list[i] == ext);
}

proof fn lemma_compressed(ext: Seq<char>)
    requires
        Category::Compressed.extensions().contains(ext),
    ensures
        ext.len() > 0,
        ({
            let n = letters(ext);
            ||| n == spell('z', 'i', 'p', '\0', '\0')
            ||| n == spell('r', 'a', 'r', '\0', '\0')
            ||| n == spell('7', 'z', '\0', '\0', '\0')
            ||| n == spell('t', 'a', 'r', '\0', '\0')
            ||| n == spell('g', 'z', '\0', '\0', '\0')
            ||| n == spell('b', 'z', '2', '\0', '\0')
            ||| n == spell('x', 'z', '\0', '\0', '\0')
            ||| n == spell('z', 's', 't', '\0', '\0')
            ||| n == spell('i', 's', 'o', '\0', '\0')
            ||| n == spell('i', 'm', 'g', '\0', '\0')
            ||| n == spell('c', 'a', 'b', '\0', '\0')
            ||| n == spell('a', 'r', 'j', '\0', '\0')
            ||| n == spell('l', 'z', '\0', '\0', '\0')
            ||| n == spell('l', 'z', 'm', 'a', '\0')
            ||| n == spell('t', 'g', 'z', '\0', '\0')
        }),
{
    reveal_strlit("zip");
    reveal_strlit("rar");
    reveal_strlit("7z");
    reveal_strlit("tar");
    reveal_strlit("gz");
    reveal_strlit("bz2");
    reveal_strlit("xz");
    reveal_strlit("zst");
    reveal_strlit("iso");
    reveal_strlit("img");
    reveal_strlit("cab");
    reveal_strlit("arj");
    reveal_strlit("lz");
    reveal_strlit("lzma");
    reveal_strlit("tgz");
    let list = Category::Compressed.extensions();
    let i = choose|i: int| 0 <= i < list.len() && list[i] == ext;
    assert(list[i] == ext);
}

proof fn lemma_programs(ext: Seq<char>)
    requires
        Category::Programs.extensions().contains(ext),
    ensures
        ext.len() > 0,
        ({
            let n = letters(ext);
            ||| n == spell('e', 'x', 'e', '\0', '\0')
            ||| n == spell('m', 's', 'i', '\0', '\0')
            ||| n == spell('m', 's', 'i', 'x', '\0')
            ||| n == spell('a', 'p', 'p', 'x', '\0')
            ||| n == spell('b', 'a', 't', '\0', '\0')
            ||| n == spell('c', 'm', 'd', '\0', '\0')
            ||| n == spell('p', 's', '1', '\0', '\0')
            ||| n == spell('a', 'p', 'k', '\0', '\0')
            ||| n == spell('d', 'e', 'b', '\0', '\0')
            ||| n == spell('r', 'p', 'm', '\0', '\0')
            ||| n == spell('d', 'm', 'g', '\0', '\0')
            ||| n == spell('p', 'k', 'g', '\0', '\0')
            ||| n == spell('a', 'p', 'p', 'i', 'm')
            ||| n == spell('j', 'a', 'r', '\0', '\0')
        }),
{
    reveal_strlit("exe");
    reveal_strlit("msi");
    reveal_strlit("msix");
    reveal_strlit("appx");
    reveal_strlit("bat");
    reveal_strlit("cmd");
    reveal_strlit("ps1");
    reveal_strlit("apk");
    reveal_strlit("deb");
    reveal_strlit("rpm");
    reveal_strlit("dmg");
    reveal_strlit("pkg");
    reveal_strlit("appimage");
    reveal_strlit("jar");
    let list = Category::Programs.extensions();
    let i = choose|i: int| 0 <= i < list.len() && list[i] == ext;
    assert(list[i] == ext);
}

/// Every listed extension stands in one list alone, and has a letter.
proof fn lemma_listed_once(a: Category, b: Category, ext: Seq<char>)
    requires
        a.extensions().contains(ext),
        b.extensions().contains(ext),
    ensures
        a == b,
        ext.len() > 0,
{
    match a {
        Category::Documents => {
            lemma_documents(ext);
        },
        Category::Video => {
            lemma_video(ext);
        },
        Category::Music => {
            lemma_music(ext);
        },
        Category::Images => {
            lemma_images(ext);
        },
        Category::Compressed => {
            lemma_compressed(ext);
        },
        Category::Programs => {
            lemma_programs(ext);
        },
        Category::Other => {},
    }
    match b {
        Category::Documents => {
            lemma_documents(ext);
        },
        Category::Video => {
            lemma_video(ext);
        },
        Category::Music => {
            lemma_music(ext);
        },
        Category::Images => {
            lemma_images(ext);
        },
        Category::Compressed => {
            lemma_compressed(ext);
        },
        Category::Programs => {
            lemma_programs(ext);
        },
        Category::Other => {},
    }
}

/// An extension is filed under a category exactly if that category lists it,
/// without its leading dots and in lower case: no extension stands in two lists.
/// None is filed under `Other`.
pub proof fn law_an_extension_has_one_category(ext: Seq<char>, c: Category)
    ensures
        category_of_extension(ext) == Some(c) <==> c.extensions().contains(
            text::lowered(text::trimmed_start(ext, Fringe::Dot)),
        ),
        category_of_extension(ext) != Some(Category::Other),
{
    let bare = text::lowered(text::trimmed_start(ext, Fringe::Dot));
    reveal_with_fuel(category_from, 8);
    if c.extensions().contains(bare) {
        lemma_listed_once(c, c, bare);
        match category_of_extension(ext) {
            Some(found) => {
                lemma_listed_once(c, found, bare);
            },
            None => {},
        }
    }
}

/// Document types that do not say so in their top-level type.
pub open spec fn document_types() -> Seq<Seq<char>> {
    seq![
        "application/pdf"@,
        "application/msword"@,
        "application/vnd.ms-excel"@,
        "application/vnd.ms-powerpoint"@,
        "application/rtf"@,
        "application/epub+zip"@,
    ]
}

pub open spec fn archive_types() -> Seq<Seq<char>> {
    seq![
        "application/zip"@,
        "application/x-zip-compressed"@,
        "application/x-rar-compressed"@,
        "application/vnd.rar"@,
        "application/x-7z-compressed"@,
        "application/gzip"@,
        "application/x-gzip"@,
        "application/x-tar"@,
        "application/x-bzip2"@,
        "application/x-xz"@,
        "application/x-iso9660-image"@,
    ]
}

pub open spec fn program_types() -> Seq<Seq<char>> {
    seq![
        "application/vnd.microsoft.portable-executable"@,
        "application/x-msdownload"@,
        "application/x-msi"@,
        "application/vnd.android.package-archive"@,
        "application/x-apple-diskimage"@,
        "application/java-archive"@,
    ]
}

pub open spec fn stream_types() -> Seq<Seq<char>> {
    seq![
        "application/x-mpegurl"@,
        "application/vnd.apple.mpegurl"@,
        "application/dash+xml"@,
    ]
}

/// A MIME type without its parameters, in lower case.
pub open spec fn bare_mime(mime: Seq<char>) -> Seq<char> {
    text::lowered(text::trimmed(text::before_first(mime, ';'), Fringe::Space))
}

/// The category of a MIME type. Types that say nothing, and types nobody
/// knows, have none.
pub open spec fn category_of_mime(value: Seq<char>) -> Option<Category> {
    let mime = bare_mime(value);
    let top = text::before_first(mime, '/');
    if mime.len() == 0 || mime == "application/octet-stream"@ || mime
        == "binary/octet-stream"@ {
        None
    } else if document_types().contains(mime) {
        Some(Category::Documents)
    } else if archive_types().contains(mime) {
        Some(Category::Compressed)
    } else if program_types().contains(mime) {
        Some(Category::Programs)
    } else if stream_types().contains(mime) {
        Some(Category::Video)
    } else if mime == "image/svg+xml"@ {
        Some(Category::Images)
    } else if "application/vnd.openxmlformats-officedocument."@.is_prefix_of(mime) {
        Some(Category::Documents)
    } else if top == "video"@ {
        Some(Category::Video)
    } else if top == "audio"@ {
        Some(Category::Music)
    } else if top == "image"@ {
        Some(Category::Images)
    } else if top == "text"@ {
        Some(Category::Documents)
    } else {
        None
    }
}

/// Subtypes that top-level matching would misfile.
fn from_specific_mime(mime: &[char]) -> (r: Option<Category>)
    ensures
        r == (if document_types().contains(mime@) {
            Some(Category::Documents)
        } else if archive_types().contains(mime@) {
            Some(Category::Compressed)
        } else if program_types().contains(mime@) {
            Some(Category::Programs)
        } else if stream_types().contains(mime@) {
            Some(Category::Video)
        } else if mime@ == "image/svg+xml"@ {
            Some(Category::Images)
        } else {
            None
        }),
{
    let documents: Vec<&'static str> = vec![
        "application/pdf",
        "application/msword",
        "application/vnd.ms-excel",
        "application/vnd.ms-powerpoint",
        "application/rtf",
        "application/epub+zip",
    ];
    assert(text::literals(documents@) =~= document_types());
    if is_listed(mime, &documents) {
        return Some(Category::Documents);
    }
    let archives: Vec<&'static str> = vec![
        "application/zip",
        "application/x-zip-compressed",
        "application/x-rar-compressed",
        "application/vnd.rar",
        "application/x-7z-compressed",
        "application/gzip",
        "application/x-gzip",
        "application/x-tar",
        "application/x-bzip2",
        "application/x-xz",
        "application/x-iso9660-image",
    ];
    assert(text::literals(archives@) =~= archive_types());
    if is_listed(mime, &archives) {
        return Some(Category::Compressed);
    }
    let programs: Vec<&'static str> = vec![
        "application/vnd.microsoft.portable-executable",
        "application/x-msdownload",
        "application/x-msi",
        "application/vnd.android.package-archive",
        "application/x-apple-diskimage",
        "application/java-archive",
    ];
    assert(text::literals(programs@) =~= program_types());
    if is_listed(mime, &programs) {
        return Some(Category::Programs);
    }
    let streams: Vec<&'static str> = vec![
        "application/x-mpegurl",
        "application/vnd.apple.mpegurl",
        "application/dash+xml",
    ];
    assert(text::literals(streams@) =~= stream_types());
    if is_listed(mime, &streams) {
        return Some(Category::Video);
    }
    if text::spells(mime, "image/svg+xml") {
        return Some(Category::Images);
    }
    None
}

/// Classify by `Content-Type`. Handles both the top-level type and a few
/// specific subtypes that don't follow the top-level grouping.
pub fn from_mime(mime: &str) -> (r: Option<Category>)
    ensures
        r == category_of_mime(mime@),
{
    let chars = text::chars_of(mime);
    let bare = text::to_lower(
        text::trim(text::head_before(chars.as_slice(), ';'), Fringe::Space),
    );
    let mime: &[char] = bare.as_slice();
    if mime.len() == 0 || text::spells(mime, "application/octet-stream") || text::spells(
        mime,
        "binary/octet-stream",
    ) {
        return None;
    }
    let specific = from_specific_mime(mime);
    if specific.is_some() {
        return specific;
    }
    let office = text::chars_of("application/vnd.openxmlformats-officedocument.");
    if text::starts_with(mime, office.as_slice()) {
        return Some(Category::Documents);
    }
    let top = text::head_before(mime, '/');
    if text::spells(top, "video") {
        Some(Category::Video)
    } else if text::spells(top, "audio") {
        Some(Category::Music)
    } else if text::spells(top, "image") {
        Some(Category::Images)
    } else if text::spells(top, "text") {
        Some(Category::Documents)
    } else {
        None
    }
}

/// The brands of ISO base media files that are no video.
pub open spec fn category_of_brand(brand: Seq<u8>) -> Category {
    if brand == seq![0x4du8, 0x34, 0x41, 0x20] || brand == seq![0x4du8, 0x34, 0x42, 0x20] {
        Category::Music
    } else if brand == seq![0x68u8, 0x65, 0x69, 0x63] || brand == seq![0x68u8, 0x65, 0x69, 0x78]
        || brand == seq![0x6du8, 0x69, 0x66, 0x31] || brand == seq![0x61u8, 0x76, 0x69, 0x66] {
        Category::Images
    } else {
        Category::Video
    }
}

/// The form types of RIFF containers.
pub open spec fn category_of_form(form: Seq<u8>) -> Category {
    if form == seq![0x57u8, 0x41, 0x56, 0x45] {
        Category::Music
    } else if form == seq![0x41u8, 0x56, 0x49, 0x20] {
        Category::Video
    } else if form == seq![0x57u8, 0x45, 0x42, 0x50] {
        Category::Images
    } else {
        Category::Other
    }
}

pub open spec fn is_archive_head(head: Seq<u8>) -> bool {
    ||| seq![0x50u8, 0x4b, 0x03, 0x04].is_prefix_of(head)
    ||| seq![0x52u8, 0x61, 0x72, 0x21, 0x1a, 0x07].is_prefix_of(head)
    ||| seq![0x37u8, 0x7a, 0xbc, 0xaf, 0x27, 0x1c].is_prefix_of(head)
    ||| seq![0x1fu8, 0x8b].is_prefix_of(head)
    ||| seq![0xfdu8, 0x37, 0x7a, 0x58, 0x5a, 0x00].is_prefix_of(head)
    ||| seq![0x42u8, 0x5a, 0x68].is_prefix_of(head)
    ||| seq![0x28u8, 0xb5, 0x2f, 0xfd].is_prefix_of(head)
}

pub open spec fn is_image_head(head: Seq<u8>) -> bool {
    ||| seq![0x89u8, 0x50, 0x4e, 0x47].is_prefix_of(head)
    ||| seq![0xffu8, 0xd8, 0xff].is_prefix_of(head)
    ||| seq![0x47u8, 0x49, 0x46, 0x38].is_prefix_of(head)
    ||| seq![0x42u8, 0x4d].is_prefix_of(head)
}

pub open spec fn is_music_head(head: Seq<u8>) -> bool {
    ||| seq![0x49u8, 0x44, 0x33].is_prefix_of(head)
    ||| seq![0x66u8, 0x4c, 0x61, 0x43].is_prefix_of(head)
    ||| seq![0x4fu8, 0x67, 0x67, 0x53].is_prefix_of(head)
    ||| seq![0xffu8, 0xfb].is_prefix_of(head)
}

pub open spec fn is_program_head(head: Seq<u8>) -> bool {
    ||| seq![0x4du8, 0x5a].is_prefix_of(head)
    ||| seq![0xd0u8, 0xcf, 0x11, 0xe0].is_prefix_of(head)
    ||| seq![0x7fu8, 0x45, 0x4c, 0x46].is_prefix_of(head)
}

/// The category a file signature gives away. Fewer than four bytes say nothing.
pub open spec fn category_of_magic(head: Seq<u8>) -> Option<Category> {
    if head.len() < 4 {
        None
    } else if head.len() >= 12 && head.subrange(4, 8) == seq![0x66u8, 0x74, 0x79, 0x70] {
        // ISO base media puts its brand at offset 4.
        Some(category_of_brand(head.subrange(8, 12)))
    } else if head.len() >= 12 && seq![0x52u8, 0x49, 0x46, 0x46].is_prefix_of(head) {
        // RIFF containers: the form type disambiguates.
        Some(category_of_form(head.subrange(8, 12)))
    } else if seq![0x25u8, 0x50, 0x44, 0x46].is_prefix_of(head) {
        Some(Category::Documents)
    } else if is_archive_head(head) {
        Some(Category::Compressed)
    } else if is_image_head(head) {
        Some(Category::Images)
    } else if is_music_head(head) {
        Some(Category::Music)
    } else if seq![0x1au8, 0x45, 0xdf, 0xa3].is_prefix_of(head) {
        Some(Category::Video)
    } else if is_program_head(head) {
        Some(Category::Programs)
    } else {
        None
    }
}

/// Whether `sig` stands in `head` at position `at`.
fn has_at(head: &[u8], at: usize, sig: &Vec<u8>) -> (r: bool)
    requires
        at <= head.len(),
    ensures
        r == (at + sig.len() <= head.len() && head@.subrange(at as int, at + sig.len()) == sig@),
{
    if sig.len() > head.len() - at {
        return false;
    }
    let mut i: usize = 0;
    while i < sig.len()
        invariant
            i <= sig.len(),
            at + sig.len() <= head.len(),
            forall|k: int| 0 <= k < i ==> head@[at + k] == sig@[k],
        decreases sig.len() - i,
    {
        if head[at + i] != sig[i] {
            assert(head@.subrange(at as int, at + sig.len())[i as int] != sig@[i as int]);
            return false;
        }
        i = i + 1;
    }
    assert(head@.subrange(at as int, at + sig.len()) =~= sig@);
    true
}

/// Whether `head` begins with `sig`.
fn starts(head: &[u8], sig: Vec<u8>) -> (r: bool)
    ensures
        r == sig@.is_prefix_of(head@),
{
    has_at(head, 0, &sig)
}

/// Last resort: identify by file signature. `head` should be the first ~16
/// bytes of the file.
pub fn from_magic(head: &[u8]) -> (r: Option<Category>)
    ensures
        r == category_of_magic(head@),
{
    if head.len() < 4 {
        return None;
    }
    if head.len() >= 12 && has_at(head, 4, &vec![0x66u8, 0x74, 0x79, 0x70]) {
        assert(head@.subrange(4, 8) =~= seq![0x66u8, 0x74, 0x79, 0x70]);
        let ghost brand = head@.subrange(8, 12);
        if has_at(head, 8, &vec![0x4du8, 0x34, 0x41, 0x20]) || has_at(
            head,
            8,
            &vec![0x4du8, 0x34, 0x42, 0x20],
        ) {
            assert(brand =~= seq![0x4du8, 0x34, 0x41, 0x20] || brand =~= seq![
                0x4du8,
                0x34,
                0x42,
                0x20,
            ]);
            return Some(Category::Music);
        }
        if has_at(head, 8, &vec![0x68u8, 0x65, 0x69, 0x63]) || has_at(
            head,
            8,
            &vec![0x68u8, 0x65, 0x69, 0x78],
        ) || has_at(head, 8, &vec![0x6du8, 0x69, 0x66, 0x31]) || has_at(
            head,
            8,
            &vec![0x61u8, 0x76, 0x69, 0x66],
        ) {
            return Some(Category::Images);
        }
        return Some(Category::Video);
    }
    if head.len() >= 12 && starts(head, vec![0x52u8, 0x49, 0x46, 0x46]) {
        if has_at(head, 8, &vec![0x57u8, 0x41, 0x56, 0x45]) {
            return Some(Category::Music);
        }
        if has_at(head, 8, &vec![0x41u8, 0x56, 0x49, 0x20]) {
            return Some(Category::Video);
        }
        if has_at(head, 8, &vec![0x57u8, 0x45, 0x42, 0x50]) {
            return Some(Category::Images);
        }
        return Some(Category::Other);
    }
    if starts(head, vec![0x25u8, 0x50, 0x44, 0x46]) {
        return Some(Category::Documents);
    }
    // `PK` could be an office document or a plain zip. Without reading the
    // central directory there is no telling, so it counts as an archive.
    if starts(head, vec![0x50u8, 0x4b, 0x03, 0x04]) || starts(
        head,
        vec![0x52u8, 0x61, 0x72, 0x21, 0x1a, 0x07],
    ) || starts(head, vec![0x37u8, 0x7a, 0xbc, 0xaf, 0x27, 0x1c]) || starts(
        head,
        vec![0x1fu8, 0x8b],
    ) || starts(head, vec![0xfdu8, 0x37, 0x7a, 0x58, 0x5a, 0x00]) || starts(
        head,
        vec![0x42u8, 0x5a, 0x68],
    ) || starts(head, vec![0x28u8, 0xb5, 0x2f, 0xfd]) {
        return Some(Category::Compressed);
    }
    if starts(head, vec![0x89u8, 0x50, 0x4e, 0x47]) || starts(head, vec![0xffu8, 0xd8, 0xff])
        || starts(head, vec![0x47u8, 0x49, 0x46, 0x38]) || starts(head, vec![0x42u8, 0x4d]) {
        return Some(Category::Images);
    }
    if starts(head, vec![0x49u8, 0x44, 0x33]) || starts(head, vec![0x66u8, 0x4c, 0x61, 0x43])
        || starts(head, vec![0x4fu8, 0x67, 0x67, 0x53]) || starts(head, vec![0xffu8, 0xfb]) {
        return Some(Category::Music);
    }
    if starts(head, vec![0x1au8, 0x45, 0xdf, 0xa3]) {
        return Some(Category::Video);
    }
    if starts(head, vec![0x4du8, 0x5a]) || starts(head, vec![0xd0u8, 0xcf, 0x11, 0xe0]) || starts(
        head,
        vec![0x7fu8, 0x45, 0x4c, 0x46],
    ) {
        return Some(Category::Programs);
    }
    None
}

/// The category of a download: by its extension, else by its MIME type, else by
/// its first bytes.
pub open spec fn category_of(
    filename: Seq<char>,
    mime: Option<Seq<char>>,
    head: Seq<u8>,
    windows: bool,
) -> Category {
    let ext = match naming::extension(filename, windows) {
        Some(e) => e,
        None => Seq::empty(),
    };
    let by_mime = match mime {
        Some(m) => category_of_mime(m),
        None => None,
    };
    match category_of_extension(ext) {
        Some(c) => c,
        None => match by_mime {
            Some(c) => c,
            None => match category_of_magic(head) {
                Some(c) => c,
                None => Category::Other,
            },
        },
    }
}

/// The optional text behind an optional string slice.
pub open spec fn opt_str(v: Option<&str>) -> Option<Seq<char>> {
    match v {
        Some(s) => Some(s@),
        None => None,
    }
}

/// Full classification chain. `head` may be empty if no bytes are available yet;
/// `windows` says how a path in the name is to be read.
pub fn classify(filename: &str, mime: Option<&str>, head: &[u8], windows: bool) -> (r: Category)
    ensures
        r == category_of(filename@, opt_str(mime), head@, windows),
{
    let chars = text::chars_of(filename);
    let ext: String = match naming::extension_of(chars.as_slice(), windows) {
        Some(e) => text::text_of(e),
        None => String::new(),
    };
    if let Some(c) = from_extension(ext.as_str()) {
        return c;
    }
    if let Some(m) = mime {
        if let Some(c) = from_mime(m) {
            return c;
        }
    }
    match from_magic(head) {
        Some(c) => c,
        None => Category::Other,
    }
}

/// A known extension decides alone, whatever the server and the first bytes say.
/// Without one a type that is known decides, whatever the bytes say. Without that
/// the bytes do.
pub proof fn law_the_extension_comes_first(
    filename: Seq<char>,
    ext: Seq<char>,
    mime: Option<Seq<char>>,
    head: Seq<u8>,
    windows: bool,
)
    ensures
        naming::extension(filename, windows) == Some(ext) && category_of_extension(ext) is Some
            ==> Some(category_of(filename, mime, head, windows)) == category_of_extension(ext),
        naming::extension(filename, windows) is None && mime is Some && category_of_mime(
            mime->0,
        ) is Some ==> Some(category_of(filename, mime, head, windows)) == category_of_mime(mime->0),
        naming::extension(filename, windows) == Some(ext) && category_of_extension(ext) is None
            && mime is Some && category_of_mime(mime->0) is Some ==> Some(
            category_of(filename, mime, head, windows),
        ) == category_of_mime(mime->0),
        (naming::extension(filename, windows) is None || (naming::extension(filename, windows)
            == Some(ext) && category_of_extension(ext) is None)) && (mime is None
            || category_of_mime(mime->0) is None) ==> category_of(filename, mime, head, windows)
            == (match category_of_magic(head) {
            Some(c) => c,
            None => Category::Other,
        }),
{
    assert(text::trimmed_start(Seq::<char>::empty(), Fringe::Dot).len() == 0);
    assert(category_of_extension(Seq::<char>::empty()) is None);
}

/// What a server says beside the type does not matter, nor does the case it is
/// written in.
pub proof fn law_parameters_of_a_type_do_not_matter(mime: Seq<char>, more: Seq<char>)
    requires
        !mime.contains(';'),
    ensures
        category_of_mime(mime + seq![';'] + more) == category_of_mime(mime),
{
    text::law_the_front_is_found(mime, ';', more);
    mime.index_of_first_ensures(';');
}

/// Every listed type begins alike.
proof fn lemma_listed_type(mime: Seq<char>)
    requires
        document_types().contains(mime) || archive_types().contains(mime)
            || program_types().contains(mime) || stream_types().contains(mime),
    ensures
        mime.len() > 1,
        mime[1] == 'p',
{
    reveal_strlit("application/pdf");
    reveal_strlit("application/msword");
    reveal_strlit("application/vnd.ms-excel");
    reveal_strlit("application/vnd.ms-powerpoint");
    reveal_strlit("application/rtf");
    reveal_strlit("application/epub+zip");
    reveal_strlit("application/zip");
    reveal_strlit("application/x-zip-compressed");
    reveal_strlit("application/x-rar-compressed");
    reveal_strlit("application/vnd.rar");
    reveal_strlit("application/x-7z-compressed");
    reveal_strlit("application/gzip");
    reveal_strlit("application/x-gzip");
    reveal_strlit("application/x-tar");
    reveal_strlit("application/x-bzip2");
    reveal_strlit("application/x-xz");
    reveal_strlit("application/x-iso9660-image");
    reveal_strlit("application/vnd.microsoft.portable-executable");
    reveal_strlit("application/x-msdownload");
    reveal_strlit("application/x-msi");
    reveal_strlit("application/vnd.android.package-archive");
    reveal_strlit("application/x-apple-diskimage");
    reveal_strlit("application/java-archive");
    reveal_strlit("application/x-mpegurl");
    reveal_strlit("application/vnd.apple.mpegurl");
    reveal_strlit("application/dash+xml");
    if document_types().contains(mime) {
        let i = choose|i: int| 0 <= i < document_types().len() && document_types()[i] == mime;
        assert(document_types()[i][1] == 'p');
    } else if archive_types().contains(mime) {
        let i = choose|i: int| 0 <= i < archive_types().len() && archive_types()[i] == mime;
        assert(archive_types()[i][1] == 'p');
    } else if program_types().contains(mime) {
        let i = choose|i: int| 0 <= i < program_types().len() && program_types()[i] == mime;
        assert(program_types()[i][1] == 'p');
    } else {
        let i = choose|i: int| 0 <= i < stream_types().len() && stream_types()[i] == mime;
        assert(stream_types()[i][1] == 'p');
    }
}

/// A plain type is not listed, and reads as it is written.
proof fn lemma_plain_type(top: Seq<char>, sub: Seq<char>)
    requires
        top.len() > 1,
        top[1] != 'p',
        top[0] != 'b',
        sub.len() > 0,
        forall|i: int| 0 <= i < top.len() ==> 'a' <= #[trigger] top[i] <= 'z',
        forall|i: int| 0 <= i < sub.len() ==> 'a' <= #[trigger] sub[i] <= 'z',
    ensures
        ({
            let mime = top + seq!['/'] + sub;
            &&& bare_mime(mime) == mime
            &&& text::before_first(mime, '/') == top
            &&& mime != "application/octet-stream"@
            &&& mime != "binary/octet-stream"@
            &&& mime != "image/svg+xml"@
            &&& !document_types().contains(mime)
            &&& !archive_types().contains(mime)
            &&& !program_types().contains(mime)
            &&& !stream_types().contains(mime)
            &&& !"application/vnd.openxmlformats-officedocument."@.is_prefix_of(mime)
        }),
{
    let mime = top + seq!['/'] + sub;
    assert forall|i: int| 0 <= i < mime.len() implies #[trigger] mime[i] == '/' || 'a' <= mime[i]
        <= 'z' by {
        if i < top.len() {
            assert(mime[i] == top[i]);
        } else if i > top.len() {
            assert(mime[i] == sub[i - top.len() - 1]);
        }
    }
    assert(mime[1] == top[1] && mime[0] == top[0]);
    mime.index_of_first_ensures(';');
    assert(text::before_first(mime, ';') == mime);
    assert(mime.last() == sub.last());
    text::law_trimming_leaves_the_rest(mime, Fringe::Space);
    assert(text::lowered(mime) =~= mime);
    assert(!top.contains('/')) by {
        if top.contains('/') {
            let i = choose|i: int| 0 <= i < top.len() && top[i] == '/';
            assert('a' <= top[i] <= 'z');
        }
    }
    text::law_the_front_is_found(top, '/', sub);
    reveal_strlit("application/octet-stream");
    reveal_strlit("binary/octet-stream");
    reveal_strlit("image/svg+xml");
    reveal_strlit("application/vnd.openxmlformats-officedocument.");
    assert("application/octet-stream"@[1] == 'p');
    assert("binary/octet-stream"@[0] == 'b');
    assert("image/svg+xml"@[9] == '+');
    let office = "application/vnd.openxmlformats-officedocument."@;
    if office.is_prefix_of(mime) {
        assert(office[1] == mime[1]);
    }
    if document_types().contains(mime) || archive_types().contains(mime) || program_types().contains(
        mime,
    ) || stream_types().contains(mime) {
        lemma_listed_type(mime);
    }
}

/// A type that nobody lists is known by its first half.
pub proof fn law_a_plain_type_is_known_by_its_first_half(sub: Seq<char>)
    requires
        sub.len() > 0,
        forall|i: int| 0 <= i < sub.len() ==> 'a' <= #[trigger] sub[i] <= 'z',
    ensures
        category_of_mime("video/"@ + sub) == Some(Category::Video),
        category_of_mime("audio/"@ + sub) == Some(Category::Music),
        category_of_mime("image/"@ + sub) == Some(Category::Images),
        category_of_mime("text/"@ + sub) == Some(Category::Documents),
{
    reveal_strlit("video");
    reveal_strlit("audio");
    reveal_strlit("image");
    reveal_strlit("text");
    lemma_plain_type("video"@, sub);
    lemma_plain_type("audio"@, sub);
    lemma_plain_type("image"@, sub);
    lemma_plain_type("text"@, sub);
    reveal_strlit("video/");
    reveal_strlit("audio/");
    reveal_strlit("image/");
    reveal_strlit("text/");
    assert("video/"@ + sub =~= "video"@ + seq!['/'] + sub);
    assert("audio/"@ + sub =~= "audio"@ + seq!['/'] + sub);
    assert("image/"@ + sub =~= "image"@ + seq!['/'] + sub);
    assert("text/"@ + sub =~= "text"@ + seq!['/'] + sub);
    assert("video"@[0] != "audio"@[0] && "audio"@[0] != "image"@[0] && "image"@[0] != "text"@[0]
        && "text"@[0] != "video"@[0] && "video"@[0] != "image"@[0] && "audio"@[0] != "text"@[0]);
}

// ----------------------------------------------------------- laws on signatures
/// Whether a file begins with these bytes, one by one.
pub open spec fn begins(head: Seq<u8>, mark: Seq<u8>) -> bool {
    mark.len() <= head.len() && forall|i: int| 0 <= i < mark.len() ==> head[i] == #[trigger] mark[i]
}

proof fn lemma_begins(head: Seq<u8>, mark: Seq<u8>)
    ensures
        mark.is_prefix_of(head) <==> begins(head, mark),
        begins(head, mark) && mark.len() > 0 ==> head[0] == mark[0],
        begins(head, mark) && mark.len() > 1 ==> head[1] == mark[1],
{
    if begins(head, mark) {
        assert(head.subrange(0, mark.len() as int) =~= mark);
    }
    if mark.is_prefix_of(head) {
        assert forall|i: int| 0 <= i < mark.len() implies head[i] == #[trigger] mark[i] by {
            assert(head.subrange(0, mark.len() as int)[i] == head[i]);
        }
    }
}

/// Every signature that stands at the beginning of a file gives its category away,
/// whatever follows it, unless the file is one of the media containers.
pub proof fn law_a_signature_is_known(head: Seq<u8>)
    requires
        4 <= head.len(),
        head.len() >= 12 ==> head.subrange(4, 8) != seq![0x66u8, 0x74, 0x79, 0x70],
    ensures
        begins(head, seq![0x25u8, 0x50, 0x44, 0x46]) ==> category_of_magic(head) == Some(
            Category::Documents,
        ),
        begins(head, seq![0x50u8, 0x4b, 0x03, 0x04]) ==> category_of_magic(head) == Some(
            Category::Compressed,
        ),
        begins(head, seq![0x52u8, 0x61, 0x72, 0x21, 0x1a, 0x07]) ==> category_of_magic(head) == Some(
            Category::Compressed,
        ),
        begins(head, seq![0x37u8, 0x7a, 0xbc, 0xaf, 0x27, 0x1c]) ==> category_of_magic(head) == Some(
            Category::Compressed,
        ),
        begins(head, seq![0x1fu8, 0x8b]) ==> category_of_magic(head) == Some(
            Category::Compressed,
        ),
        begins(head, seq![0xfdu8, 0x37, 0x7a, 0x58, 0x5a, 0x00]) ==> category_of_magic(head) == Some(
            Category::Compressed,
        ),
        begins(head, seq![0x42u8, 0x5a, 0x68]) ==> category_of_magic(head) == Some(
            Category::Compressed,
        ),
        begins(head, seq![0x28u8, 0xb5, 0x2f, 0xfd]) ==> category_of_magic(head) == Some(
            Category::Compressed,
        ),
        begins(head, seq![0x89u8, 0x50, 0x4e, 0x47]) ==> category_of_magic(head) == Some(
            Category::Images,
        ),
        begins(head, seq![0xffu8, 0xd8, 0xff]) ==> category_of_magic(head) == Some(
            Category::Images,
        ),
        begins(head, seq![0x47u8, 0x49, 0x46, 0x38]) ==> category_of_magic(head) == Some(
            Category::Images,
        ),
        begins(head, seq![0x42u8, 0x4d]) ==> category_of_magic(head) == Some(
            Category::Images,
        ),
        begins(head, seq![0x49u8, 0x44, 0x33]) ==> category_of_magic(head) == Some(
            Category::Music,
        ),
        begins(head, seq![0x66u8, 0x4c, 0x61, 0x43]) ==> category_of_magic(head) == Some(
            Category::Music,
        ),
        begins(head, seq![0x4fu8, 0x67, 0x67, 0x53]) ==> category_of_magic(head) == Some(
            Category::Music,
        ),
        begins(head, seq![0xffu8, 0xfb]) ==> category_of_magic(head) == Some(
            Category::Music,
        ),
        begins(head, seq![0x1au8, 0x45, 0xdf, 0xa3]) ==> category_of_magic(head) == Some(
            Category::Video,
        ),
        begins(head, seq![0x4du8, 0x5a]) ==> category_of_magic(head) == Some(
            Category::Programs,
        ),
        begins(head, seq![0xd0u8, 0xcf, 0x11, 0xe0]) ==> category_of_magic(head) == Some(
            Category::Programs,
        ),
        begins(head, seq![0x7fu8, 0x45, 0x4c, 0x46]) ==> category_of_magic(head) == Some(
            Category::Programs,
        ),
{
    lemma_begins(head, seq![0x25u8, 0x50, 0x44, 0x46]);
    lemma_begins(head, seq![0x50u8, 0x4b, 0x03, 0x04]);
    lemma_begins(head, seq![0x52u8, 0x61, 0x72, 0x21, 0x1a, 0x07]);
    lemma_begins(head, seq![0x37u8, 0x7a, 0xbc, 0xaf, 0x27, 0x1c]);
    lemma_begins(head, seq![0x1fu8, 0x8b]);
    lemma_begins(head, seq![0xfdu8, 0x37, 0x7a, 0x58, 0x5a, 0x00]);
    lemma_begins(head, seq![0x42u8, 0x5a, 0x68]);
    lemma_begins(head, seq![0x28u8, 0xb5, 0x2f, 0xfd]);
    lemma_begins(head, seq![0x89u8, 0x50, 0x4e, 0x47]);
    lemma_begins(head, seq![0xffu8, 0xd8, 0xff]);
    lemma_begins(head, seq![0x47u8, 0x49, 0x46, 0x38]);
    lemma_begins(head, seq![0x42u8, 0x4d]);
    lemma_begins(head, seq![0x49u8, 0x44, 0x33]);
    lemma_begins(head, seq![0x66u8, 0x4c, 0x61, 0x43]);
    lemma_begins(head, seq![0x4fu8, 0x67, 0x67, 0x53]);
    lemma_begins(head, seq![0xffu8, 0xfb]);
    lemma_begins(head, seq![0x1au8, 0x45, 0xdf, 0xa3]);
    lemma_begins(head, seq![0x4du8, 0x5a]);
    lemma_begins(head, seq![0xd0u8, 0xcf, 0x11, 0xe0]);
    lemma_begins(head, seq![0x7fu8, 0x45, 0x4c, 0x46]);
    lemma_begins(head, seq![0x52u8, 0x49, 0x46, 0x46]);
}

/// A media container is known by the brand it names, and one of a brand that is not
/// sound or picture alone is a video.
pub proof fn law_a_container_is_known_by_its_brand(head: Seq<u8>)
    requires
        12 <= head.len(),
    ensures
        head.subrange(4, 8) == seq![0x66u8, 0x74, 0x79, 0x70] ==> {
            let brand = head.subrange(8, 12);
            &&& brand == seq![0x4du8, 0x34, 0x41, 0x20] ==> category_of_magic(head) == Some(
                Category::Music,
            )
            &&& brand == seq![0x68u8, 0x65, 0x69, 0x63] || brand == seq![
                0x61u8,
                0x76,
                0x69,
                0x66,
            ] ==> category_of_magic(head) == Some(Category::Images)
            &&& brand[0] == 0x69 || brand[0] == 0x71 ==> category_of_magic(head) == Some(
                Category::Video,
            )
        },
        head.subrange(4, 8) != seq![0x66u8, 0x74, 0x79, 0x70] && begins(
            head,
            seq![0x52u8, 0x49, 0x46, 0x46],
        ) ==> {
            let form = head.subrange(8, 12);
            &&& form == seq![0x57u8, 0x41, 0x56, 0x45] ==> category_of_magic(head) == Some(
                Category::Music,
            )
            &&& form == seq![0x41u8, 0x56, 0x49, 0x20] ==> category_of_magic(head) == Some(
                Category::Video,
            )
            &&& form == seq![0x57u8, 0x45, 0x42, 0x50] ==> category_of_magic(head) == Some(
                Category::Images,
            )
            &&& form[0] == 0x58 ==> category_of_magic(head) == Some(Category::Other)
        },
{
    lemma_begins(head, seq![0x52u8, 0x49, 0x46, 0x46]);
    let brand = head.subrange(8, 12);
    assert(seq![0x4du8, 0x34, 0x41, 0x20][0] == 0x4d && seq![0x4du8, 0x34, 0x42, 0x20][0] == 0x4d);
    assert(seq![0x68u8, 0x65, 0x69, 0x63][0] == 0x68 && seq![0x68u8, 0x65, 0x69, 0x78][0] == 0x68);
    assert(seq![0x6du8, 0x69, 0x66, 0x31][0] == 0x6d && seq![0x61u8, 0x76, 0x69, 0x66][0] == 0x61);
    assert(seq![0x57u8, 0x41, 0x56, 0x45][0] == 0x57 && seq![0x57u8, 0x41, 0x56, 0x45][1] == 0x41);
    assert(seq![0x41u8, 0x56, 0x49, 0x20][0] == 0x41);
    assert(seq![0x57u8, 0x45, 0x42, 0x50][0] == 0x57 && seq![0x57u8, 0x45, 0x42, 0x50][1] == 0x45);
}

/// Too few bytes give nothing away.
pub proof fn law_a_few_bytes_say_nothing(head: Seq<u8>)
    requires
        head.len() < 4,
    ensures
        category_of_magic(head) is None,
{
}

} // verus!

//! File paths as the crawler and the tokenizers see them: extensions, stems,
//! paths relative to the crawled root, and the file kinds that each reader handles.
use vstd::prelude::*;
use vstd::string::StringExecFns;
use crate::text::{opt_view, str_eq};

verus! {

/// The extension of a path as `Path::extension` gives it (the part of the
/// file name after its last `.`), when it is valid text.
pub uninterp spec fn path_extension(path: Seq<char>) -> Option<Seq<char>>;

/// The file name of a path without its extension, as `Path::file_stem` gives it.
pub uninterp spec fn path_file_stem(path: Seq<char>) -> Option<Seq<char>>;

/// The text of `path` relative to `base`, as `Path::strip_prefix` gives it
/// (`None` when `base` is not a prefix of `path` component by component).
pub uninterp spec fn path_relative_to(path: Seq<char>, base: Seq<char>) -> Option<Seq<char>>;

/// The lowercase mapping of a text, as `str::to_lowercase` gives it.
pub uninterp spec fn unicode_lowercase(s: Seq<char>) -> Seq<char>;

/// `Path::extension` followed by `OsStr::to_str`. Claimed: the result is
/// `path_extension(path)`.
#[verifier::external_body]
pub(crate) fn extension_of(path: &str) -> (res: Option<String>)
    ensures
        opt_view(res) == path_extension(path@),
{
    std::path::Path::new(path).extension().and_then(|e| e.to_str()).map(|e| e.to_string())
}

/// `Path::file_stem` followed by `OsStr::to_str`. Claimed: the result is
/// `path_file_stem(path)`.
#[verifier::external_body]
pub(crate) fn file_stem_of(path: &str) -> (res: Option<String>)
    ensures
        opt_view(res) == path_file_stem(path@),
{
    std::path::Path::new(path).file_stem().and_then(|e| e.to_str()).map(|e| e.to_string())
}

/// `Path::strip_prefix` followed by `Path::to_str`. Claimed: the result is
/// `path_relative_to(path, base)`.
#[verifier::external_body]
pub(crate) fn relative_to(path: &str, base: &str) -> (res: Option<String>)
    ensures
        opt_view(res) == path_relative_to(path@, base@),
{
    std::path::Path::new(path).strip_prefix(base).ok().and_then(|p| p.to_str()).map(|p| p.to_string())
}

/// `str::to_lowercase`. Claimed: the result is `unicode_lowercase(s)`.
#[verifier::external_body]
pub fn to_lowercase(s: &str) -> (res: String)
    ensures
        res@ == unicode_lowercase(s@),
{
    s.to_lowercase()
}

/// The views of a list of string slices.
pub open spec fn str_views(v: Seq<&str>) -> Seq<Seq<char>> {
    v.map_values(|s: &str| s@)
}

/// Whether the lowercased extension of `path` is one of `extensions`.
pub open spec fn spec_is_file_type(path: Seq<char>, extensions: Seq<Seq<char>>) -> bool {
    match path_extension(path) {
        Some(e) => extensions.contains(unicode_lowercase(e)),
        None => false,
    }
}

/// Whether `needle` is one of `list`.
pub fn list_contains(list: &[&str], needle: &str) -> (res: bool)
    ensures
        res == str_views(list@).contains(needle@),
{
    let mut i: usize = 0;
    while i < list.len()
        invariant
            i <= list@.len(),
            forall|j: int| 0 <= j < i ==> list@[j]@ != needle@,
        decreases list@.len() - i,
    {
        if str_eq(list[i], needle) {
            assert(str_views(list@)[i as int] == needle@);
            return true;
        }
        i = i + 1;
    }
    proof {
        if str_views(list@).contains(needle@) {
            let j = choose|j: int| 0 <= j < str_views(list@).len() && str_views(list@)[j] == needle@;
            assert(list@[j]@ == needle@);
        }
    }
    false
}

/// Whether the extension of `path`, lowercased, is one of `extensions`.
pub fn is_file_type(path: &str, extensions: Vec<&str>) -> (res: bool)
    ensures
        res == spec_is_file_type(path@, str_views(extensions@)),
{
    match extension_of(path) {
        Some(ext) => {
            let lower = to_lowercase(ext.as_str());
            list_contains(extensions.as_slice(), lower.as_str())
        },
        None => false,
    }
}

/// The extensions of image files.
pub open spec fn image_extensions() -> Seq<Seq<char>> {
    seq!["tiff"@, "jpeg"@, "jpg"@, "heif"@, "png"@, "webp"@]
}

/// The extensions of JPEG files.
pub open spec fn jpeg_extensions() -> Seq<Seq<char>> {
    seq!["jpeg"@, "jpg"@]
}

/// The extensions of sound files.
pub open spec fn audio_extensions() -> Seq<Seq<char>> {
    seq!["mp3"@, "wav"@]
}

/// The extensions of text files read as Markdown.
pub open spec fn markdown_extensions() -> Seq<Seq<char>> {
    seq!["txt"@, "md"@]
}

/// The extensions of files that may carry an XMP packet: images and videos.
pub open spec fn xmp_extensions() -> Seq<Seq<char>> {
    seq!["tiff"@, "jpeg"@, "jpg"@, "heif"@, "png"@, "webp"@, "mp4"@, "mov"@]
}

/// Whether `path` names an image file.
pub fn is_image_file(path: &str) -> (res: bool)
    ensures
        res == spec_is_file_type(path@, image_extensions()),
{
    let exts = vec!["tiff", "jpeg", "jpg", "heif", "png", "webp"];
    proof {
        assert(str_views(exts@) =~= image_extensions());
    }
    is_file_type(path, exts)
}

/// Whether `path` names a JPEG file.
pub fn is_jpeg_file(path: &str) -> (res: bool)
    ensures
        res == spec_is_file_type(path@, jpeg_extensions()),
{
    let exts = vec!["jpeg", "jpg"];
    proof {
        assert(str_views(exts@) =~= jpeg_extensions());
    }
    is_file_type(path, exts)
}

/// Whether `path` names an MP3 file.
pub fn is_mp3_file(path: &str) -> (res: bool)
    ensures
        res == spec_is_file_type(path@, seq!["mp3"@]),
{
    let exts = vec!["mp3"];
    proof {
        assert(str_views(exts@) =~= seq!["mp3"@]);
    }
    is_file_type(path, exts)
}

/// Whether `path` names a sound file.
pub fn is_audio_file(path: &str) -> (res: bool)
    ensures
        res == spec_is_file_type(path@, audio_extensions()),
{
    let exts = vec!["mp3", "wav"];
    proof {
        assert(str_views(exts@) =~= audio_extensions());
    }
    is_file_type(path, exts)
}

/// Whether `path` names a text file read as Markdown.
pub fn is_markdown_file(path: &str) -> (res: bool)
    ensures
        res == spec_is_file_type(path@, markdown_extensions()),
{
    let exts = vec!["txt", "md"];
    proof {
        assert(str_views(exts@) =~= markdown_extensions());
    }
    is_file_type(path, exts)
}

/// Whether `path` names a file that may carry an XMP packet.
pub fn is_xmp_file(path: &str) -> (res: bool)
    ensures
        res == spec_is_file_type(path@, xmp_extensions()),
{
    let exts = vec!["tiff", "jpeg", "jpg", "heif", "png", "webp", "mp4", "mov"];
    proof {
        assert(str_views(exts@) =~= xmp_extensions());
    }
    is_file_type(path, exts)
}

/// `name` appended to the directory path `base`, with a `/` between them
/// unless `base` is empty or already ends with one.
pub open spec fn spec_join_path(base: Seq<char>, name: Seq<char>) -> Seq<char> {
    if base.len() == 0 || base.last() == '/' {
        base + name
    } else {
        base + seq!['/'] + name
    }
}

/// Appends the relative path `name` to the directory path `base`.
pub fn join_path(base: &str, name: &str) -> (res: String)
    ensures
        res@ == spec_join_path(base@, name@),
{
    let mut out = String::from_str(base);
    let cs = crate::text::chars_of(base);
    if cs.len() > 0 && cs[cs.len() - 1] != '/' {
        out.append("/");
        proof {
            reveal_strlit("/");
        }
    }
    out.append(name);
    out
}

} // verus!

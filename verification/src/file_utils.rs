//! File names: the parts of a path, and the kinds of file told by their
//! extension.
//!
//! The parts of a path are those that `std::path::Path` finds on the platform
//! the library is built for.

use crate::text::same_text;
use vstd::prelude::*;
use vstd::string::*;

verus! {

/// The extension of a path, as `std::path::Path::extension` finds it.
pub uninterp spec fn path_extension_of(path: Seq<char>) -> Option<Seq<char>>;

/// The parent of a path, as `std::path::Path::parent` finds it.
pub uninterp spec fn path_parent_of(path: Seq<char>) -> Option<Seq<char>>;

/// The last component of a path, as `std::path::Path::file_name` finds it.
pub uninterp spec fn path_file_name_of(path: Seq<char>) -> Option<Seq<char>>;

/// The last component of a path without its extension, as
/// `std::path::Path::file_stem` finds it.
pub uninterp spec fn path_file_stem_of(path: Seq<char>) -> Option<Seq<char>>;

/// `Path::extension` of the path written in `path`. The result is the part
/// of the path that std takes for its extension, `None` where it finds none.
#[verifier::external_body]
pub(crate) fn path_extension(path: &str) -> (extension: Option<String>)
    ensures
        option_text(extension) == path_extension_of(path@),
{
    std::path::Path::new(path).extension().and_then(|e| e.to_str()).map(|e| e.to_string())
}

/// `Path::parent` of the path written in `path`. The result is the path that
/// std takes for its parent, `None` where it has none.
#[verifier::external_body]
pub(crate) fn path_parent(path: &str) -> (parent: Option<String>)
    ensures
        option_text(parent) == path_parent_of(path@),
{
    std::path::Path::new(path).parent().and_then(|p| p.to_str()).map(|p| p.to_string())
}

/// `Path::file_name` of the path written in `path`. The result is the
/// component that std takes for its file name, `None` where it finds none.
#[verifier::external_body]
pub(crate) fn path_file_name(path: &str) -> (name: Option<String>)
    ensures
        option_text(name) == path_file_name_of(path@),
{
    std::path::Path::new(path).file_name().and_then(|n| n.to_str()).map(|n| n.to_string())
}

/// `Path::file_stem` of the path written in `path`. The result is the part
/// of the file name that std takes for its stem, `None` where it finds none.
#[verifier::external_body]
pub(crate) fn path_file_stem(path: &str) -> (stem: Option<String>)
    ensures
        option_text(stem) == path_file_stem_of(path@),
{
    std::path::Path::new(path).file_stem().and_then(|s| s.to_str()).map(|s| s.to_string())
}

/// The value of an optional text.
pub open spec fn option_text(text: Option<String>) -> Option<Seq<char>> {
    match text {
        Some(t) => Some(t@),
        None => None,
    }
}

/// The text where there is one, else the empty text.
pub open spec fn or_empty(text: Option<Seq<char>>) -> Seq<char> {
    match text {
        Some(t) => t,
        None => Seq::empty(),
    }
}

/// The values of a sequence of texts.
pub open spec fn texts(list: Seq<String>) -> Seq<Seq<char>> {
    list.map_values(|s: String| s@)
}

/// The text that stands for the parent of a path that has none.
pub open spec fn unknown_dir() -> Seq<char> {
    "Unknown"@
}

/// The directory a path lies in; `Unknown` where the path has no parent.
pub open spec fn parent_dir(path: Seq<char>) -> Seq<char> {
    match path_parent_of(path) {
        Some(p) => p,
        None => unknown_dir(),
    }
}

/// The name of the directory a path lies in; empty where that directory has
/// no name.
pub open spec fn parent_dir_name(path: Seq<char>) -> Seq<char> {
    or_empty(path_file_name_of(parent_dir(path)))
}

/// The extensions of JPEG images.
pub open spec fn jpeg_extensions() -> Seq<Seq<char>> {
    seq!["jpg"@, "jpeg"@, "JPG"@, "JPEG"@, "jpe"@, "jfif"@, "pjpeg"@, "pjp"@]
}

/// The extensions of PNG images.
pub open spec fn png_extensions() -> Seq<Seq<char>> {
    seq!["png"@, "PNG"@]
}

/// The extensions of GIF images.
pub open spec fn gif_extensions() -> Seq<Seq<char>> {
    seq!["gif"@]
}

/// The extensions of TIFF images.
pub open spec fn tiff_extensions() -> Seq<Seq<char>> {
    seq!["tif"@, "tiff"@]
}

/// The extensions of bitmap images.
pub open spec fn bmp_extensions() -> Seq<Seq<char>> {
    seq!["bmp"@, "dib"@]
}

/// The extensions of WebP images.
pub open spec fn webp_extensions() -> Seq<Seq<char>> {
    seq!["webp"@]
}

/// The extensions of the images that are shown, in upper case only where
/// they are listed so.
pub open spec fn image_extensions() -> Seq<Seq<char>> {
    jpeg_extensions() + png_extensions() + gif_extensions() + tiff_extensions() + bmp_extensions()
        + webp_extensions()
}

/// The extensions of videos.
pub open spec fn video_extensions() -> Seq<Seq<char>> {
    seq!["mp4"@, "avi"@, "mov"@, "mkv"@, "wmv"@, "flv"@, "webm"@]
}

/// The extensions of archives.
pub open spec fn compressed_extensions() -> Seq<Seq<char>> {
    seq!["zip"@, "tar"@, "gz"@, "bz2"@, "xz"@, "7z"@]
}

/// The extensions of every file that can be opened.
pub open spec fn any_extensions() -> Seq<Seq<char>> {
    image_extensions() + video_extensions() + compressed_extensions()
}

/// The extension by which the kind of a file is told: that of its path, or
/// the empty text where it has none.
pub open spec fn kind_extension(path: Seq<char>) -> Seq<char> {
    or_empty(path_extension_of(path))
}

/// The directory that `path` lies in; `Unknown` where the path has no parent.
pub fn get_parent_dir(path: &str) -> (dir: String)
    ensures
        dir@ == parent_dir(path@),
{
    match path_parent(path) {
        Some(p) => p,
        None => "Unknown".to_owned(),
    }
}

/// The name of the directory that `path` lies in; empty where that directory
/// has no name.
pub fn get_parent_dir_name(path: &str) -> (name: String)
    ensures
        name@ == parent_dir_name(path@),
{
    let parent = get_parent_dir(path);
    match path_file_name(parent.as_str()) {
        Some(n) => n,
        None => String::new(),
    }
}

/// The name of the file at `path` without its extension; empty where the
/// path names no file.
pub fn get_filename_without_extension(path: &str) -> (stem: String)
    ensures
        stem@ == or_empty(path_file_stem_of(path@)),
{
    match path_file_stem(path) {
        Some(s) => s,
        None => String::new(),
    }
}

/// The extension of `path` by which its kind is told.
pub fn get_kind_extension(path: &str) -> (extension: String)
    ensures
        extension@ == kind_extension(path@),
{
    match path_extension(path) {
        Some(e) => e,
        None => String::new(),
    }
}

/// Whether `text` is one of `list`.
pub fn list_contains(list: &Vec<String>, text: &str) -> (found: bool)
    ensures
        found == texts(list@).contains(text@),
{
    let mut i: usize = 0;
    while i < list.len()
        invariant
            i <= list@.len(),
            forall|k: int| 0 <= k < i ==> texts(list@)[k] != text@,
        decreases list@.len() - i,
    {
        if same_text(list[i].as_str(), text) {
            assert(texts(list@)[i as int] == text@);
            return true;
        }
        i = i + 1;
    }
    false
}

/// Whether `extension` is that of an image.
pub fn is_image_extension(extension: &str) -> (image: bool)
    ensures
        image == image_extensions().contains(extension@),
{
    list_contains(&get_image_extensions(), extension)
}

/// Whether `extension` is that of a video.
pub fn is_video_extension(extension: &str) -> (video: bool)
    ensures
        video == video_extensions().contains(extension@),
{
    list_contains(&get_video_extensions(), extension)
}

/// Whether `extension` is that of an archive.
pub fn is_compressed_extension(extension: &str) -> (compressed: bool)
    ensures
        compressed == compressed_extensions().contains(extension@),
{
    list_contains(&get_compressed_extensions(), extension)
}

/// Whether the file can be shown: it is an image or a video.
pub fn is_executable_file(path: &str) -> (executable: bool)
    ensures
        executable == (image_extensions().contains(kind_extension(path@))
            || video_extensions().contains(kind_extension(path@))),
{
    is_image_file(path) || is_video_file(path)
}

/// Whether the extension of `path` is that of an image.
pub fn is_image_file(path: &str) -> (image: bool)
    ensures
        image == image_extensions().contains(kind_extension(path@)),
{
    let extension = get_kind_extension(path);
    is_image_extension(extension.as_str())
}

/// Whether the extension of `path` is that of a video.
pub fn is_video_file(path: &str) -> (video: bool)
    ensures
        video == video_extensions().contains(kind_extension(path@)),
{
    let extension = get_kind_extension(path);
    is_video_extension(extension.as_str())
}

/// Whether the extension of `path` is that of an archive.
pub fn is_compressed_file(path: &str) -> (compressed: bool)
    ensures
        compressed == compressed_extensions().contains(kind_extension(path@)),
{
    let extension = get_kind_extension(path);
    is_compressed_extension(extension.as_str())
}

/// The extensions of JPEG images.
pub fn get_jpeg_extensions() -> (list: Vec<String>)
    ensures
        texts(list@) == jpeg_extensions(),
{
    let mut list: Vec<String> = Vec::new();
    list.push("jpg".to_owned());
    list.push("jpeg".to_owned());
    list.push("JPG".to_owned());
    list.push("JPEG".to_owned());
    list.push("jpe".to_owned());
    list.push("jfif".to_owned());
    list.push("pjpeg".to_owned());
    list.push("pjp".to_owned());
    assert(texts(list@) =~= jpeg_extensions());
    list
}

/// The extensions of PNG images.
pub fn get_png_extensions() -> (list: Vec<String>)
    ensures
        texts(list@) == png_extensions(),
{
    let mut list: Vec<String> = Vec::new();
    list.push("png".to_owned());
    list.push("PNG".to_owned());
    assert(texts(list@) =~= png_extensions());
    list
}

/// The extensions of GIF images.
pub fn get_gif_extensions() -> (list: Vec<String>)
    ensures
        texts(list@) == gif_extensions(),
{
    let mut list: Vec<String> = Vec::new();
    list.push("gif".to_owned());
    assert(texts(list@) =~= gif_extensions());
    list
}

/// The extensions of TIFF images.
pub fn get_tiff_extensions() -> (list: Vec<String>)
    ensures
        texts(list@) == tiff_extensions(),
{
    let mut list: Vec<String> = Vec::new();
    list.push("tif".to_owned());
    list.push("tiff".to_owned());
    assert(texts(list@) =~= tiff_extensions());
    list
}

/// The extensions of bitmap images.
pub fn get_bmp_extensions() -> (list: Vec<String>)
    ensures
        texts(list@) == bmp_extensions(),
{
    let mut list: Vec<String> = Vec::new();
    list.push("bmp".to_owned());
    list.push("dib".to_owned());
    assert(texts(list@) =~= bmp_extensions());
    list
}

/// The extensions of WebP images.
pub fn get_webp_extensions() -> (list: Vec<String>)
    ensures
        texts(list@) == webp_extensions(),
{
    let mut list: Vec<String> = Vec::new();
    list.push("webp".to_owned());
    assert(texts(list@) =~= webp_extensions());
    list
}

/// The extensions of the images that are shown.
pub fn get_image_extensions() -> (list: Vec<String>)
    ensures
        texts(list@) == image_extensions(),
{
    let mut list: Vec<String> = Vec::new();
    let mut jpeg = get_jpeg_extensions();
    let mut png = get_png_extensions();
    let mut gif = get_gif_extensions();
    let mut tiff = get_tiff_extensions();
    let mut bmp = get_bmp_extensions();
    let mut webp = get_webp_extensions();
    list.append(&mut jpeg);
    list.append(&mut png);
    list.append(&mut gif);
    list.append(&mut tiff);
    list.append(&mut bmp);
    list.append(&mut webp);
    assert(texts(list@) =~= image_extensions());
    list
}

/// The extensions of videos.
pub fn get_video_extensions() -> (list: Vec<String>)
    ensures
        texts(list@) == video_extensions(),
{
    let mut list: Vec<String> = Vec::new();
    list.push("mp4".to_owned());
    list.push("avi".to_owned());
    list.push("mov".to_owned());
    list.push("mkv".to_owned());
    list.push("wmv".to_owned());
    list.push("flv".to_owned());
    list.push("webm".to_owned());
    assert(texts(list@) =~= video_extensions());
    list
}

/// The extensions of archives.
pub fn get_compressed_extensions() -> (list: Vec<String>)
    ensures
        texts(list@) == compressed_extensions(),
{
    let mut list: Vec<String> = Vec::new();
    list.push("zip".to_owned());
    list.push("tar".to_owned());
    list.push("gz".to_owned());
    list.push("bz2".to_owned());
    list.push("xz".to_owned());
    list.push("7z".to_owned());
    assert(texts(list@) =~= compressed_extensions());
    list
}

/// The extensions of every file that can be opened: images, videos, archives.
pub fn get_any_extensions() -> (list: Vec<String>)
    ensures
        texts(list@) == any_extensions(),
{
    let mut list: Vec<String> = Vec::new();
    let mut image = get_image_extensions();
    let mut video = get_video_extensions();
    let mut compressed = get_compressed_extensions();
    list.append(&mut image);
    list.append(&mut video);
    list.append(&mut compressed);
    assert(texts(list@) =~= any_extensions());
    list
}

/// The first of `files` that is an image, as the thumbnail of the folder
/// that holds them; the empty text where none is.
pub open spec fn first_image(files: Seq<Seq<char>>) -> Seq<char>
    decreases files.len(),
{
    if files.len() == 0 {
        Seq::empty()
    } else if image_extensions().contains(kind_extension(files[0])) {
        files[0]
    } else {
        first_image(files.skip(1))
    }
}

/// Finds the thumbnail of a folder among the paths of what it holds, in the
/// order the file system gave them.
pub fn find_first_image_in_folder(files: &Vec<String>) -> (thumb: String)
    ensures
        thumb@ == first_image(texts(files@)),
{
    let mut i: usize = 0;
    assert(texts(files@).skip(0) =~= texts(files@));
    while i < files.len()
        invariant
            i <= files@.len(),
            first_image(texts(files@)) == first_image(texts(files@).skip(i as int)),
        decreases files@.len() - i,
    {
        let ghost rest = texts(files@).skip(i as int);
        assert(rest[0] == files@[i as int]@);
        if is_image_file(files[i].as_str()) {
            return files[i].clone();
        }
        assert(rest.skip(1) =~= texts(files@).skip(i + 1));
        i = i + 1;
    }
    String::new()
}

} // verus!

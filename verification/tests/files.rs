use simple_image_viewer::file_tree::{
    archive_tree, count_file_keys, get_compressed_file_tree, get_file_kind, get_file_tree,
    get_filenames_inner_zip, make_file_key, rebuild_file_tree, sort_names, sort_nodes,
    ScannedEntry, TreeSource,
};
use simple_image_viewer::file_utils::{
    find_first_image_in_folder, get_any_extensions, get_bmp_extensions, get_compressed_extensions,
    get_filename_without_extension, get_gif_extensions, get_image_extensions, get_jpeg_extensions,
    get_parent_dir, get_parent_dir_name, get_png_extensions, get_tiff_extensions,
    get_video_extensions, get_webp_extensions, is_compressed_file, is_executable_file,
    is_image_extension, is_image_file, is_video_file,
};
use simple_image_viewer::image_data::{open_file_image, read_image_in_zip};
use simple_image_viewer::model_downloader::{
    download_total, has_model_size, is_valid_model, should_report_progress, text_model,
    vision_model, DownloadStatus, ModelInfo,
};
use simple_image_viewer::natural::comes_after;
use simple_image_viewer::text::{
    contains_text, decimal_string, same_text, starts_with_text, str_before, text_chars,
};
use simple_image_viewer::thumbnail_utils::{
    calculate_image_hash, verify_sha256, ThumbnailData, THUMBNAIL_SIZE,
};
use simple_image_viewer::viewer_state::{
    find_first_file, find_key_in_tree, find_path_in_tree, get_next_in_tree, get_prev_in_tree,
    Directory, File, FileTree,
};
use std::io::Write;

const ABC_SHA256: &str = "ba7816bf8f01cfea414140de5dae2223b00361a396177a9cb410ff61f20015ad";

fn file(key: &str, path: &str, name: &str) -> FileTree {
    FileTree::File(File {
        key: key.to_string(),
        file_type: "Image".to_string(),
        path: path.to_string(),
        name: name.to_string(),
    })
}

fn dir(path: &str, children: Vec<FileTree>) -> FileTree {
    FileTree::Directory(Directory { path: path.to_string(), name: path.to_string(), children })
}

fn key_of(found: Option<File>) -> Option<String> {
    found.map(|f| f.key)
}

fn sample_tree() -> Vec<FileTree> {
    vec![
        dir("/r/empty", vec![]),
        dir(
            "/r/d1",
            vec![dir("/r/d1/in", vec![file("file-1", "/r/d1/in/a.png", "a.png")]), file("file-2", "/r/d1/b.png", "b.png")],
        ),
        file("file-3", "/r/c.png", "c.png"),
        file("file-4", "/r/d.png", "d.png"),
        file("file-5", "/r/e.png", "e.png"),
    ]
}

fn archive(entries: &[(&str, &[u8])]) -> Vec<u8> {
    let mut writer = zip::ZipWriter::new(std::io::Cursor::new(Vec::new()));
    let options = zip::write::FileOptions::default().compression_method(zip::CompressionMethod::Stored);
    for (name, data) in entries {
        writer.start_file(*name, options).unwrap();
        writer.write_all(data).unwrap();
    }
    writer.finish().unwrap().into_inner()
}

fn scanned_file(path: &str, name: &str) -> ScannedEntry {
    ScannedEntry { path: path.to_string(), name: name.to_string(), is_dir: false, children: vec![] }
}

fn scanned_dir(path: &str, name: &str, children: Vec<ScannedEntry>) -> ScannedEntry {
    ScannedEntry { path: path.to_string(), name: name.to_string(), is_dir: true, children }
}

#[test]
fn test_thumbnail_size() {
    assert_eq!(THUMBNAIL_SIZE, 224);
}

#[test]
fn extension_lists() {
    assert_eq!(get_jpeg_extensions(), vec!["jpg", "jpeg", "JPG", "JPEG", "jpe", "jfif", "pjpeg", "pjp"]);
    assert_eq!(get_png_extensions(), vec!["png", "PNG"]);
    assert_eq!(get_gif_extensions(), vec!["gif"]);
    assert_eq!(get_tiff_extensions(), vec!["tif", "tiff"]);
    assert_eq!(get_bmp_extensions(), vec!["bmp", "dib"]);
    assert_eq!(get_webp_extensions(), vec!["webp"]);
    assert_eq!(
        get_image_extensions(),
        vec![
            "jpg", "jpeg", "JPG", "JPEG", "jpe", "jfif", "pjpeg", "pjp", "png", "PNG", "gif", "tif", "tiff", "bmp",
            "dib", "webp"
        ]
    );
    assert_eq!(get_video_extensions(), vec!["mp4", "avi", "mov", "mkv", "wmv", "flv", "webm"]);
    assert_eq!(get_compressed_extensions(), vec!["zip", "tar", "gz", "bz2", "xz", "7z"]);
    assert_eq!(get_any_extensions().len(), 16 + 7 + 6);
    assert_eq!(get_any_extensions()[16], "mp4");
    assert_eq!(get_any_extensions()[28], "7z");
}

#[test]
fn kinds_of_files() {
    assert!(is_image_file("/a/b/photo.jpg"));
    assert!(is_image_file("photo.PNG"));
    assert!(!is_image_file("photo.Png"));
    assert!(!is_image_file("photo"));
    assert!(!is_image_file("/a/b.jpg/readme"));
    assert!(is_video_file("clip.webm"));
    assert!(!is_video_file("clip.jpg"));
    assert!(is_compressed_file("/x/pack.zip"));
    assert!(!is_compressed_file("/x/pack.rar"));
    assert!(is_executable_file("a.gif"));
    assert!(is_executable_file("a.mp4"));
    assert!(!is_executable_file("a.zip"));
    assert!(is_image_extension("webp"));
    assert!(!is_image_extension(""));
}

#[test]
fn parts_of_paths() {
    assert_eq!(get_parent_dir("/a/b/c.png"), "/a/b");
    assert_eq!(get_parent_dir("/"), "Unknown");
    assert_eq!(get_parent_dir_name("/a/b/c.png"), "b");
    assert_eq!(get_parent_dir_name("/"), "Unknown");
    assert_eq!(get_parent_dir_name("c.png"), "");
    assert_eq!(get_filename_without_extension("/a/b/c.tar.gz"), "c.tar");
    assert_eq!(get_filename_without_extension("/a/b/"), "b");
    assert_eq!(get_filename_without_extension(".."), "");
}

#[test]
fn first_image_of_a_folder() {
    let files = vec!["/f/notes.txt".to_string(), "/f/b.PNG".to_string(), "/f/a.jpg".to_string()];
    assert_eq!(find_first_image_in_folder(&files), "/f/b.PNG");
    let none = vec!["/f/notes.txt".to_string(), "/f/clip.mp4".to_string()];
    assert_eq!(find_first_image_in_folder(&none), "");
    assert_eq!(find_first_image_in_folder(&Vec::new()), "");
}

#[test]
fn text_helpers() {
    assert_eq!(decimal_string(0), "0");
    assert_eq!(decimal_string(7), "7");
    assert_eq!(decimal_string(10), "10");
    assert_eq!(decimal_string(18446744073709551615), "18446744073709551615");
    assert_eq!(make_file_key(12), "file-12");
    assert_eq!(make_file_key(-3), "file--3");
    assert_eq!(make_file_key(i32::MIN), "file--2147483648");
    assert!(same_text("añb", "añb"));
    assert!(!same_text("ab", "abc"));
    assert!(str_before("a", "b"));
    assert!(str_before("a", "aa"));
    assert!(!str_before("a", "a"));
    assert!(str_before("Z", "a"));
    assert!(!str_before("b", "a"));
}

#[test]
fn natural_order_counts_digits_as_numbers() {
    assert!(comes_after("img10.png", "img2.png"));
    assert!(!comes_after("img2.png", "img10.png"));
    assert!(!comes_after("a", "a"));
    assert!(comes_after("b", "a"));
}

#[test]
fn first_file_is_depth_first() {
    assert_eq!(key_of(find_first_file(&sample_tree())), Some("file-1".to_string()));
    assert_eq!(key_of(find_first_file(&vec![dir("/x", vec![])])), None);
    assert_eq!(key_of(find_first_file(&Vec::new())), None);
}

#[test]
fn file_by_key_searches_the_whole_tree() {
    let tree = sample_tree();
    assert_eq!(find_key_in_tree(&tree, &"file-2".to_string()).map(|f| f.path), Some("/r/d1/b.png".to_string()));
    assert_eq!(find_key_in_tree(&tree, &"file-4".to_string()).map(|f| f.name), Some("d.png".to_string()));
    assert!(find_key_in_tree(&tree, &"file-9".to_string()).is_none());
}

#[test]
fn file_by_path_matches_paths_at_the_top_and_keys_below() {
    let tree = sample_tree();
    assert_eq!(key_of(find_path_in_tree(&tree, &"/r/d.png".to_string())), Some("file-4".to_string()));
    // below a directory the path is compared with the keys
    assert_eq!(key_of(find_path_in_tree(&tree, &"/r/d1/b.png".to_string())), None);
    assert_eq!(key_of(find_path_in_tree(&tree, &"file-2".to_string())), Some("file-2".to_string()));
}

#[test]
fn next_and_previous_wrap_within_a_level() {
    let tree = sample_tree();
    let key = |k: &str| k.to_string();
    assert_eq!(key_of(get_next_in_tree(&key("file-3"), &tree)), Some(key("file-4")));
    assert_eq!(key_of(get_next_in_tree(&key("file-5"), &tree)), Some(key("file-3")));
    assert_eq!(key_of(get_prev_in_tree(&key("file-3"), &tree)), Some(key("file-5")));
    assert_eq!(key_of(get_prev_in_tree(&key("file-4"), &tree)), Some(key("file-3")));
    // a level with one file leads back to it
    assert_eq!(key_of(get_next_in_tree(&key("file-2"), &tree)), Some(key("file-2")));
    assert_eq!(key_of(get_prev_in_tree(&key("file-1"), &tree)), Some(key("file-1")));
    assert_eq!(key_of(get_next_in_tree(&key("file-9"), &tree)), None);
}

#[test]
fn tree_of_a_scanned_directory() {
    let entries = vec![
        scanned_file("/r/img10.png", "img10.png"),
        scanned_file("/r/notes.txt", "notes.txt"),
        scanned_dir("/r/zdir", "zdir", vec![scanned_file("/r/zdir/clip.mp4", "clip.mp4")]),
        scanned_file("/r/img2.png", "img2.png"),
        scanned_dir("/r/adir", "adir", vec![scanned_file("/r/adir/readme.md", "readme.md")]),
        scanned_dir("/r/bdir", "bdir", vec![scanned_file("/r/bdir/x.jpg", "x.jpg")]),
    ];
    let mut keys = 0;
    let tree = get_file_tree(&entries, &mut keys);
    assert_eq!(keys, 6);
    assert_eq!(count_file_keys(&entries, 0), Some(6));
    assert_eq!(count_file_keys(&entries, i32::MAX - 5), None);
    let shape: Vec<String> = tree
        .iter()
        .map(|n| match n {
            FileTree::Directory(d) => format!("dir {} {}", d.path, d.children.len()),
            FileTree::File(f) => format!("file {} {} {}", f.key, f.name, f.file_type),
        })
        .collect();
    assert_eq!(
        shape,
        vec![
            "dir /r/bdir 1",
            "dir /r/zdir 1",
            "file file-4 img2.png Image",
            "file file-1 img10.png Image",
        ]
    );
    match &tree[1] {
        FileTree::Directory(d) => match &d.children[0] {
            FileTree::File(f) => {
                assert_eq!(f.key, "file-3");
                assert_eq!(f.file_type, "Video");
            }
            _ => panic!("a file was expected"),
        },
        _ => panic!("a directory was expected"),
    }
    let rebuilt = rebuild_file_tree("/r", &TreeSource::Directory(entries));
    assert_eq!(rebuilt.len(), 4);
    assert_eq!(get_file_kind("/r/a.txt"), "File");
}

#[test]
fn nodes_sort_directories_first() {
    let nodes = vec![file("k1", "/b", "b"), dir("/z", vec![]), file("k2", "/a", "a"), dir("/y", vec![])];
    let sorted = sort_nodes(&nodes);
    let shape: Vec<String> = sorted
        .iter()
        .map(|n| match n {
            FileTree::Directory(d) => d.path.clone(),
            FileTree::File(f) => f.name.clone(),
        })
        .collect();
    assert_eq!(shape, vec!["/y", "/z", "a", "b"]);
}

#[test]
fn names_of_an_archive_come_in_byte_order() {
    let bytes = archive(&[("b.png", b"bb"), ("a/10.png", b"x"), ("a/2.png", b"y"), ("Z.png", b"z")]);
    assert_eq!(get_filenames_inner_zip(&bytes), vec!["Z.png", "a/10.png", "a/2.png", "b.png"]);
    assert!(get_filenames_inner_zip(b"this is no archive").is_empty());
    assert_eq!(sort_names(&vec!["b".to_string(), "a".to_string(), "b".to_string()]), vec!["a", "b", "b"]);
}

#[test]
fn tree_of_an_archive() {
    let bytes = archive(&[("two.png", b"2"), ("one.png", b"1")]);
    let tree = get_compressed_file_tree("/r/pack.zip", &bytes);
    let shape: Vec<String> = tree
        .iter()
        .map(|n| match n {
            FileTree::File(f) => format!("{} {} {} {}", f.key, f.file_type, f.path, f.name),
            FileTree::Directory(_) => "dir".to_string(),
        })
        .collect();
    assert_eq!(shape, vec!["file-1 Zip /r/pack.zip one.png", "file-2 Zip /r/pack.zip two.png"]);
    assert!(get_compressed_file_tree("/r/pack.zip", b"junk").is_empty());
    let same = rebuild_file_tree("/r/pack.zip", &TreeSource::Archive(bytes));
    assert_eq!(same.len(), 2);
    assert!(archive_tree("/x", &Vec::new()).is_empty());
}

#[test]
fn images_in_base64() {
    assert_eq!(open_file_image(b"hello"), "aGVsbG8");
    assert_eq!(open_file_image(b"hi"), "aGk");
    assert_eq!(open_file_image(b""), "");
    let bytes = archive(&[("one.png", b"hello")]);
    assert_eq!(read_image_in_zip(&bytes, "one.png"), "aGVsbG8");
    assert_eq!(read_image_in_zip(&bytes, "two.png"), "");
    assert_eq!(read_image_in_zip(b"junk", "one.png"), "");
}

#[test]
fn digests() {
    assert_eq!(calculate_image_hash(b"abc"), ABC_SHA256);
    assert!(verify_sha256(b"abc", ABC_SHA256));
    assert!(!verify_sha256(b"abd", ABC_SHA256));
    let data = ThumbnailData::new(b"abc".to_vec());
    assert_eq!(data.blob, b"abc".to_vec());
    assert_eq!(data.hash, ABC_SHA256);
    assert!(!data.differs_from(Some(ABC_SHA256)));
    assert!(data.differs_from(Some("00")));
    assert!(data.differs_from(None));
}

#[test]
fn models() {
    assert_eq!(vision_model().filename, "vision_model.onnx");
    assert_eq!(vision_model().expected_size, 350_000_000);
    assert_eq!(text_model().filename, "text_model.onnx");
    assert_eq!(text_model().expected_size, 254_000_000);
    assert!(text_model().url.ends_with("/models-v1/text_model.onnx"));
    assert!(has_model_size(1_000_000));
    assert!(!has_model_size(999_999));
    assert!(!is_valid_model(&vision_model(), b"abc"));
    let big = vec![0u8; 1_000_000];
    assert!(is_valid_model(&vision_model(), &big));
    let pinned = ModelInfo { filename: "m", url: "u", sha256: Some(ABC_SHA256), expected_size: 1 };
    assert!(!is_valid_model(&pinned, &big));
    assert_eq!(download_total(Some(10), &vision_model()), 10);
    assert_eq!(download_total(None, &vision_model()), 350_000_000);
    // first chunk
    assert!(should_report_progress(100, 100, 10_000));
    // total / 100 + 1 = 101: 250 % 101 = 48 < 100
    assert!(should_report_progress(250, 100, 10_000));
    // 200 % 101 = 99 is not below 50
    assert!(!should_report_progress(200, 50, 10_000));
    assert_ne!(DownloadStatus::Starting, DownloadStatus::Completed);
}

fn archive_with_extra_field(name: &str, field: &[u8], data: &[u8]) -> Vec<u8> {
    let mut writer = zip::ZipWriter::new(std::io::Cursor::new(Vec::new()));
    let options = zip::write::FileOptions::default().compression_method(zip::CompressionMethod::Stored);
    writer.start_file_with_extra_data(name, options).unwrap();
    writer.write_all(field).unwrap();
    writer.end_extra_data().unwrap();
    writer.write_all(data).unwrap();
    writer.finish().unwrap().into_inner()
}

fn position_of(bytes: &[u8], signature: &[u8]) -> usize {
    bytes.windows(signature.len()).position(|w| w == signature).unwrap()
}

#[test]
fn entry_that_asks_for_a_password_reads_as_nothing() {
    // an entry with a field of its own, of the size of the field that an
    // encrypted entry carries
    let own = [0xef, 0xbe, 0x07, 0x00, 1, 2, 3, 4, 5, 6, 7];
    let mut bytes = archive_with_extra_field("one.png", &own, b"hello");
    assert_eq!(read_image_in_zip(&bytes, "one.png"), "aGVsbG8");
    // the field of an encrypted entry (strength 3, stored) in its place, on
    // an entry that is not marked as encrypted
    let field = [0x01, 0x99, 0x07, 0x00, 0x02, 0x00, 0x41, 0x45, 0x03, 0x00, 0x00];
    let mut replaced = 0;
    for at in 0..bytes.len() - own.len() {
        if bytes[at..at + own.len()] == own {
            bytes[at..at + own.len()].copy_from_slice(&field);
            replaced += 1;
        }
    }
    assert_eq!(replaced, 2);
    assert_eq!(get_filenames_inner_zip(&bytes), vec!["one.png"]);
    assert_eq!(read_image_in_zip(&bytes, "one.png"), "");
}

#[test]
fn entry_marked_as_encrypted_reads_as_nothing() {
    let mut bytes = archive(&[("one.png", b"hello, this is long enough for a key header")]);
    assert_ne!(read_image_in_zip(&bytes, "one.png"), "");
    // set the encryption bit in the entry of the central directory
    let central = position_of(&bytes, b"PK\x01\x02");
    bytes[central + 8] |= 1;
    assert_eq!(get_filenames_inner_zip(&bytes), vec!["one.png"]);
    assert_eq!(read_image_in_zip(&bytes, "one.png"), "");
}

#[test]
fn texts_are_searched_by_characters() {
    assert_eq!(text_chars("añ😀"), vec!['a', 'ñ', '😀']);
    assert!(text_chars("").is_empty());
    assert!(contains_text("holiday-2021", "day"));
    assert!(contains_text("holiday", "holiday"));
    assert!(contains_text("holiday", ""));
    assert!(contains_text("", ""));
    assert!(!contains_text("holiday", "days"));
    assert!(!contains_text("day", "holiday"));
    assert!(contains_text("añb😀c", "b😀"));
    assert!(!contains_text("añb", "nb"));
    assert!(contains_text("aab", "ab"));
    assert!(starts_with_text("/foo/barbaz", "/foo/bar"));
    assert!(starts_with_text("/foo", "/foo"));
    assert!(starts_with_text("/foo", ""));
    assert!(!starts_with_text("/foo", "/foo/"));
    assert!(!starts_with_text("/foo/bar", "/fob"));
    assert!(starts_with_text("ñandú", "ñan"));
    assert!(!starts_with_text("nandú", "ñan"));
}

#[test]
fn a_step_back_undoes_a_step_forward() {
    let tree = sample_tree();
    for key in ["file-1", "file-2", "file-3", "file-4", "file-5"] {
        let key = key.to_string();
        let there = get_next_in_tree(&key, &tree).unwrap();
        assert_eq!(key_of(get_prev_in_tree(&there.key, &tree)), Some(key.clone()));
        let there = get_prev_in_tree(&key, &tree).unwrap();
        assert_eq!(key_of(get_next_in_tree(&there.key, &tree)), Some(key));
    }
}

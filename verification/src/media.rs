//! The kinds of media that the library keeps: their folders, labels, file
//! extensions and MIME types.
use vstd::prelude::*;

use crate::names::FilePath;
use crate::text;
use crate::text::{contains_text, same_text, to_lowercase};

verus! {

/// A kind of media: its name, its folder, the label of the folder and the
/// extensions of its files.
pub type MediaRow = (Seq<char>, Seq<char>, Seq<char>, Seq<Seq<char>>);

/// The kinds of media, in the order in which they are listed.
pub open spec fn media_table() -> Seq<MediaRow> {
    seq![
        ("video"@, "videos"@, "视频目录"@, seq!["mp4"@, "webm"@, "mov"@, "m4v"@]),
        (
            "image"@,
            "images"@,
            "图片目录"@,
            seq!["jpg"@, "jpeg"@, "png"@, "gif"@, "webp"@, "bmp"@],
        ),
        ("ppt"@, "ppt"@, "PPT 目录"@, seq!["ppt"@, "pptx"@, "pps"@, "ppsx"@, "pdf"@]),
    ]
}

/// The kinds of media, in the order in which they are listed.
pub fn media_types() -> (res: Vec<(&'static str, &'static str, &'static str, Vec<&'static str>)>)
    ensures
        res.deep_view() == media_table(),
{
    let res = vec![
        ("video", "videos", "视频目录", vec!["mp4", "webm", "mov", "m4v"]),
        ("image", "images", "图片目录", vec!["jpg", "jpeg", "png", "gif", "webp", "bmp"]),
        ("ppt", "ppt", "PPT 目录", vec!["ppt", "pptx", "pps", "ppsx", "pdf"]),
    ];
    assert(res@[0].3.deep_view() == media_table()[0].3);
    assert(res@[1].3.deep_view() == media_table()[1].3);
    assert(res@[2].3.deep_view() == media_table()[2].3);
    assert(res.deep_view() == media_table());
    res
}

/// The name of the first kind of `rows` that has files with `extension`.
pub open spec fn first_kind(rows: Seq<MediaRow>, extension: Seq<char>) -> Option<Seq<char>>
    decreases rows.len(),
{
    if rows.len() == 0 {
        None
    } else if rows[0].3.contains(extension) {
        Some(rows[0].0)
    } else {
        first_kind(rows.drop_first(), extension)
    }
}

/// The kind of the files with `extension`, in capitals or not.
pub open spec fn media_type_of(extension: Seq<char>) -> Option<Seq<char>> {
    first_kind(media_table(), text::lowercase(extension))
}

/// The folder of a kind of media.
pub open spec fn folder_of(media_type: Seq<char>) -> Seq<char> {
    if media_type == "video"@ {
        "videos"@
    } else if media_type == "image"@ {
        "images"@
    } else {
        "ppt"@
    }
}

/// The label of a kind of media.
pub open spec fn type_label_of(media_type: Seq<char>) -> Seq<char> {
    if media_type == "video"@ {
        "视频"@
    } else if media_type == "image"@ {
        "图片"@
    } else {
        "PPT"@
    }
}

/// The MIME type of files with an extension in lower case.
pub open spec fn mime_of(extension: Seq<char>) -> Seq<char> {
    if extension == "mp4"@ {
        "video/mp4"@
    } else if extension == "webm"@ {
        "video/webm"@
    } else if extension == "mov"@ || extension == "m4v"@ {
        "video/quicktime"@
    } else if extension == "jpg"@ || extension == "jpeg"@ {
        "image/jpeg"@
    } else if extension == "png"@ {
        "image/png"@
    } else if extension == "gif"@ {
        "image/gif"@
    } else if extension == "webp"@ {
        "image/webp"@
    } else if extension == "bmp"@ {
        "image/bmp"@
    } else if extension == "pdf"@ {
        "application/pdf"@
    } else if extension == "ppt"@ || extension == "pps"@ {
        "application/vnd.ms-powerpoint"@
    } else if extension == "pptx"@ {
        "application/vnd.openxmlformats-officedocument.presentationml.presentation"@
    } else if extension == "ppsx"@ {
        "application/vnd.openxmlformats-officedocument.presentationml.slideshow"@
    } else {
        "application/octet-stream"@
    }
}

/// The first folder of the media table that is among `present`.
pub open spec fn first_folder(rows: Seq<MediaRow>, present: Seq<Seq<char>>) -> Option<Seq<char>>
    decreases rows.len(),
{
    if rows.len() == 0 {
        None
    } else if present.contains(rows[0].1) {
        Some(rows[0].1)
    } else {
        first_folder(rows.drop_first(), present)
    }
}

/// Whether `list` holds `text`.
pub fn contains_str(list: &Vec<&'static str>, text: &str) -> (res: bool)
    ensures
        res == list.deep_view().contains(text@),
{
    let mut i: usize = 0;
    while i < list.len()
        invariant
            i <= list@.len(),
            forall|j: int| 0 <= j < i ==> list@[j]@ != text@,
        decreases list@.len() - i,
    {
        if same_text(list[i], text) {
            assert(list.deep_view()[i as int] == text@);
            return true;
        }
        i += 1;
    }
    assert forall|j: int| 0 <= j < list.deep_view().len() implies list.deep_view()[j] != text@ by {
        assert(list.deep_view()[j] == list@[j]@);
    }
    false
}

/// The kind of the files with `extension`, in capitals or not; `None` where the
/// format is not supported.
pub fn media_type_for_extension(extension: &str) -> (res: Option<&'static str>)
    ensures
        res.deep_view() == media_type_of(extension@),
{
    let wanted = to_lowercase(extension);
    let rows = media_types();
    let ghost table = media_table();
    let mut i: usize = 0;
    assert(table.skip(0) == table);
    while i < rows.len()
        invariant
            i <= rows@.len(),
            table == media_table(),
            rows.deep_view() == table,
            wanted@ == text::lowercase(extension@),
            first_kind(table, wanted@) == first_kind(table.skip(i as int), wanted@),
        decreases rows@.len() - i,
    {
        assert(table[i as int] == rows@[i as int].deep_view());
        assert(table.skip(i as int).drop_first() == table.skip(i + 1));
        if contains_str(&rows[i].3, wanted.as_str()) {
            return Some(rows[i].0);
        }
        i += 1;
    }
    None
}

/// The folder of a kind of media.
pub fn folder_for_media_type(media_type: &str) -> (res: &'static str)
    ensures
        res@ == folder_of(media_type@),
{
    if same_text(media_type, "video") {
        "videos"
    } else if same_text(media_type, "image") {
        "images"
    } else {
        "ppt"
    }
}

/// The label of a kind of media.
pub fn type_label(media_type: &str) -> (res: &'static str)
    ensures
        res@ == type_label_of(media_type@),
{
    if same_text(media_type, "video") {
        "视频"
    } else if same_text(media_type, "image") {
        "图片"
    } else {
        "PPT"
    }
}

/// The MIME type of a file, by its extension in capitals or not.
pub fn mime_for_path(path: &FilePath) -> (res: String)
    ensures
        res@ == mime_of(text::lowercase(path@.extension_or_empty())),
{
    let extension = to_lowercase(path.extension_or_empty().as_str());
    let e = extension.as_str();
    let mime = if same_text(e, "mp4") {
        "video/mp4"
    } else if same_text(e, "webm") {
        "video/webm"
    } else if same_text(e, "mov") || same_text(e, "m4v") {
        "video/quicktime"
    } else if same_text(e, "jpg") || same_text(e, "jpeg") {
        "image/jpeg"
    } else if same_text(e, "png") {
        "image/png"
    } else if same_text(e, "gif") {
        "image/gif"
    } else if same_text(e, "webp") {
        "image/webp"
    } else if same_text(e, "bmp") {
        "image/bmp"
    } else if same_text(e, "pdf") {
        "application/pdf"
    } else if same_text(e, "ppt") || same_text(e, "pps") {
        "application/vnd.ms-powerpoint"
    } else if same_text(e, "pptx") {
        "application/vnd.openxmlformats-officedocument.presentationml.presentation"
    } else if same_text(e, "ppsx") {
        "application/vnd.openxmlformats-officedocument.presentationml.slideshow"
    } else {
        "application/octet-stream"
    };
    mime.to_owned()
}

/// The folder in which a media file is found: the first one of the media table
/// among `present`, the folders that hold a file of that name.
pub fn find_media_file_by_name(present: &Vec<String>) -> (res: Option<&'static str>)
    ensures
        res.deep_view() == first_folder(media_table(), present.deep_view()),
{
    let rows = media_types();
    let ghost table = media_table();
    let mut i: usize = 0;
    assert(table.skip(0) == table);
    while i < rows.len()
        invariant
            i <= rows@.len(),
            table == media_table(),
            rows.deep_view() == table,
            first_folder(table, present.deep_view()) == first_folder(table.skip(i as int), present.deep_view()),
        decreases rows@.len() - i,
    {
        assert(table[i as int] == rows@[i as int].deep_view());
        assert(table.skip(i as int).drop_first() == table.skip(i + 1));
        if contains_text(present, rows[i].1) {
            return Some(rows[i].1);
        }
        i += 1;
    }
    None
}

/// Whether any media folder holds a file. A folder that is missing or cannot be
/// read is `None`; of the others each entry says whether it is a file.
pub fn has_any_media(folders: &Vec<Option<Vec<bool>>>) -> (res: bool)
    ensures
        res == exists|i: int| 0 <= i < folders@.len() && (#[trigger] folders@[i] matches Some(entries) && entries@.contains(true)),
{
    let mut i: usize = 0;
    while i < folders.len()
        invariant
            i <= folders@.len(),
            forall|k: int| 0 <= k < i ==> (#[trigger] folders@[k] matches Some(entries) ==> !entries@.contains(true)),
        decreases folders@.len() - i,
    {
        if let Some(entries) = &folders[i] {
            let mut j: usize = 0;
            while j < entries.len()
                invariant
                    i < folders@.len(),
                    folders@[i as int] == Some(*entries),
                    j <= entries@.len(),
                    forall|k: int| 0 <= k < j ==> !#[trigger] entries@[k],
                decreases entries@.len() - j,
            {
                if entries[j] {
                    assert(entries@[j as int]);
                    return true;
                }
                j += 1;
            }
        }
        i += 1;
    }
    false
}

/// The extensions of each kind, one by one.
proof fn lemma_extensions(extension: Seq<char>)
    ensures
        media_table()[0].3.contains(extension) <==> (extension == "mp4"@ || extension == "webm"@ || extension
            == "mov"@ || extension == "m4v"@),
        media_table()[1].3.contains(extension) <==> (extension == "jpg"@ || extension == "jpeg"@ || extension
            == "png"@ || extension == "gif"@ || extension == "webp"@ || extension == "bmp"@),
        media_table()[2].3.contains(extension) <==> (extension == "ppt"@ || extension == "pptx"@ || extension
            == "pps"@ || extension == "ppsx"@ || extension == "pdf"@),
        first_kind(media_table(), extension) == if media_table()[0].3.contains(extension) {
            Some("video"@)
        } else if media_table()[1].3.contains(extension) {
            Some("image"@)
        } else if media_table()[2].3.contains(extension) {
            Some("ppt"@)
        } else {
            None
        },
{
    let table = media_table();
    assert(table[0].3[0] == "mp4"@ && table[0].3[1] == "webm"@ && table[0].3[2] == "mov"@ && table[0].3[3]
        == "m4v"@);
    assert(table[1].3[0] == "jpg"@ && table[1].3[1] == "jpeg"@ && table[1].3[2] == "png"@ && table[1].3[3]
        == "gif"@ && table[1].3[4] == "webp"@ && table[1].3[5] == "bmp"@);
    assert(table[2].3[0] == "ppt"@ && table[2].3[1] == "pptx"@ && table[2].3[2] == "pps"@ && table[2].3[3]
        == "ppsx"@ && table[2].3[4] == "pdf"@);
    reveal_with_fuel(first_kind, 4);
    assert(table.drop_first()[0] == table[1]);
    assert(table.drop_first().drop_first()[0] == table[2]);
}

/// The supported extensions, letter by letter.
proof fn lemma_letters()
    ensures
        "mp4"@ == seq!['m', 'p', '4'],
        "webm"@ == seq!['w', 'e', 'b', 'm'],
        "mov"@ == seq!['m', 'o', 'v'],
        "m4v"@ == seq!['m', '4', 'v'],
        "jpg"@ == seq!['j', 'p', 'g'],
        "jpeg"@ == seq!['j', 'p', 'e', 'g'],
        "png"@ == seq!['p', 'n', 'g'],
        "gif"@ == seq!['g', 'i', 'f'],
        "webp"@ == seq!['w', 'e', 'b', 'p'],
        "bmp"@ == seq!['b', 'm', 'p'],
        "ppt"@ == seq!['p', 'p', 't'],
        "pptx"@ == seq!['p', 'p', 't', 'x'],
        "pps"@ == seq!['p', 'p', 's'],
        "ppsx"@ == seq!['p', 'p', 's', 'x'],
        "pdf"@ == seq!['p', 'd', 'f'],
{
    reveal_strlit("mp4");
    reveal_strlit("webm");
    reveal_strlit("mov");
    reveal_strlit("m4v");
    reveal_strlit("jpg");
    reveal_strlit("jpeg");
    reveal_strlit("png");
    reveal_strlit("gif");
    reveal_strlit("webp");
    reveal_strlit("bmp");
    reveal_strlit("ppt");
    reveal_strlit("pptx");
    reveal_strlit("pps");
    reveal_strlit("ppsx");
    reveal_strlit("pdf");
}

/// No extension belongs to two kinds of media.
pub proof fn kinds_are_disjoint(extension: Seq<char>, i: int, j: int)
    requires
        0 <= i < media_table().len(),
        0 <= j < media_table().len(),
        media_table()[i].3.contains(extension),
        media_table()[j].3.contains(extension),
    ensures
        i == j,
{
    lemma_extensions(extension);
    lemma_letters();
}

/// The empty extension is not supported.
pub proof fn supported_extension_is_not_empty(extension: Seq<char>)
    requires
        media_type_of(extension) is Some,
    ensures
        extension.len() > 0,
{
    let e = text::lowercase(extension);
    lemma_extensions(e);
    lemma_letters();
    assert(e.len() >= 3);
}

/// Every supported extension has a kind whose row in the media table names the
/// folder of that kind and lists the extension.
pub proof fn kind_has_its_folder(extension: Seq<char>)
    requires
        media_type_of(extension) is Some,
    ensures
        exists|i: int|
            {
                &&& 0 <= i < media_table().len()
                &&& (#[trigger] media_table()[i]).0 == media_type_of(extension).unwrap()
                &&& media_table()[i].1 == folder_of(media_type_of(extension).unwrap())
                &&& media_table()[i].3.contains(text::lowercase(extension))
            },
{
    lemma_extensions(text::lowercase(extension));
    reveal_strlit("video");
    reveal_strlit("image");
    reveal_strlit("ppt");
    assert("image"@[0] == 'i' && "video"@[0] == 'v');
    assert(media_table()[0].0 == "video"@ && media_table()[1].0 == "image"@ && media_table()[2].0 == "ppt"@);
}

/// Videos and images, and no other files, have a MIME type of their kind; slides
/// have one of an application. The files that are not supported, and no others,
/// have the type of unknown files.
pub proof fn mime_fits_kind(extension: Seq<char>)
    ensures
        media_type_of(extension) == Some("video"@) <==> "video/"@.is_prefix_of(
            mime_of(text::lowercase(extension)),
        ),
        media_type_of(extension) == Some("image"@) <==> "image/"@.is_prefix_of(
            mime_of(text::lowercase(extension)),
        ),
        media_type_of(extension) == Some("ppt"@) ==> "application/"@.is_prefix_of(
            mime_of(text::lowercase(extension)),
        ),
        media_type_of(extension) is None <==> mime_of(text::lowercase(extension)) == "application/octet-stream"@,
{
    let e = text::lowercase(extension);
    let mime = mime_of(e);
    lemma_extensions(e);
    lemma_letters();
    reveal_strlit("video");
    reveal_strlit("image");
    reveal_strlit("ppt");
    reveal_strlit("video/");
    reveal_strlit("image/");
    reveal_strlit("application/");
    reveal_strlit("application/octet-stream");
    reveal_strlit("video/mp4");
    reveal_strlit("video/webm");
    reveal_strlit("video/quicktime");
    reveal_strlit("image/jpeg");
    reveal_strlit("image/png");
    reveal_strlit("image/gif");
    reveal_strlit("image/webp");
    reveal_strlit("image/bmp");
    reveal_strlit("application/pdf");
    reveal_strlit("application/vnd.ms-powerpoint");
    reveal_strlit("application/vnd.openxmlformats-officedocument.presentationml.presentation");
    reveal_strlit("application/vnd.openxmlformats-officedocument.presentationml.slideshow");
    assert("video"@[0] == 'v' && "image"@[0] == 'i' && "ppt"@[0] == 'p');
    if media_table()[0].3.contains(e) {
        assert("video/"@ == mime.subrange(0, 6));
        assert(mime.subrange(0, 6)[0] == 'v' && "image/"@[0] == 'i');
    } else if media_table()[1].3.contains(e) {
        assert("image/"@ == mime.subrange(0, 6));
        assert(mime.subrange(0, 6)[0] == 'i' && "video/"@[0] == 'v');
    } else {
        assert(mime.subrange(0, 6)[0] == 'a' && "image/"@[0] == 'i' && "video/"@[0] == 'v');
        if media_table()[2].3.contains(e) {
            assert("application/"@ == mime.subrange(0, 12));
            assert("application/octet-stream"@.len() == 24);
        }
    }
}

/// The kind of a file follows from the letters of its extension, in capitals or
/// not; a file with any other extension has none.
pub proof fn kinds_by_extension(extension: Seq<char>)
    ensures
        ({
            let e = text::lowercase(extension);
            &&& media_type_of(extension) == Some("video"@) <==> e == "mp4"@ || e == "webm"@ || e == "mov"@ || e
                == "m4v"@
            &&& media_type_of(extension) == Some("image"@) <==> e == "jpg"@ || e == "jpeg"@ || e == "png"@ || e
                == "gif"@ || e == "webp"@ || e == "bmp"@
            &&& media_type_of(extension) == Some("ppt"@) <==> e == "ppt"@ || e == "pptx"@ || e == "pps"@ || e
                == "ppsx"@ || e == "pdf"@
            &&& media_type_of(extension) matches Some(kind) ==> kind == "video"@ || kind == "image"@ || kind == "ppt"@
        }),
{
    lemma_extensions(text::lowercase(extension));
    lemma_letters();
    lemma_kind_names();
}

proof fn lemma_kind_names()
    ensures
        "video"@ != "image"@,
        "video"@ != "ppt"@,
        "image"@ != "ppt"@,
        "videos"@ != "images"@,
        "videos"@ != "ppt"@,
        "images"@ != "ppt"@,
{
    reveal_strlit("video");
    reveal_strlit("image");
    reveal_strlit("ppt");
    reveal_strlit("videos");
    reveal_strlit("images");
    assert("video"@[0] == 'v' && "image"@[0] == 'i' && "ppt"@[0] == 'p');
    assert("videos"@[0] == 'v' && "images"@[0] == 'i');
}

/// Each kind of media has a folder and labels of its own, in the media table and
/// out of it, and the extensions in its row are those of its files.
pub proof fn kinds_have_folders_and_labels(kind: Seq<char>, extension: Seq<char>)
    ensures
        media_table().len() == 3,
        forall|r: int|
            0 <= r < 3 ==> {
                let row = #[trigger] media_table()[r];
                &&& row.0 == if r == 0 {
                    "video"@
                } else if r == 1 {
                    "image"@
                } else {
                    "ppt"@
                }
                &&& row.1 == folder_of(row.0)
                &&& row.2 == if r == 0 {
                    "视频目录"@
                } else if r == 1 {
                    "图片目录"@
                } else {
                    "PPT 目录"@
                }
                &&& row.3.contains(text::lowercase(extension)) <==> media_type_of(extension) == Some(row.0)
            },
        folder_of(kind) == "videos"@ <==> kind == "video"@,
        folder_of(kind) == "images"@ <==> kind == "image"@,
        folder_of(kind) == "ppt"@ <==> kind != "video"@ && kind != "image"@,
        type_label_of(kind) == "视频"@ <==> kind == "video"@,
        type_label_of(kind) == "图片"@ <==> kind == "image"@,
        type_label_of(kind) == "PPT"@ <==> kind != "video"@ && kind != "image"@,
{
    lemma_extensions(text::lowercase(extension));
    lemma_letters();
    lemma_kind_names();
    reveal_strlit("视频");
    reveal_strlit("图片");
    reveal_strlit("PPT");
    assert("视频"@[0] == '视' && "图片"@[0] == '图' && "PPT"@[0] == 'P');
}

/// Each MIME type belongs to the extensions it is registered for, and to no others.
pub proof fn mime_by_extension(e: Seq<char>)
    ensures
        mime_of(e) == "video/mp4"@ <==> e == "mp4"@,
        mime_of(e) == "video/webm"@ <==> e == "webm"@,
        mime_of(e) == "video/quicktime"@ <==> e == "mov"@ || e == "m4v"@,
        mime_of(e) == "image/jpeg"@ <==> e == "jpg"@ || e == "jpeg"@,
        mime_of(e) == "image/png"@ <==> e == "png"@,
        mime_of(e) == "image/gif"@ <==> e == "gif"@,
        mime_of(e) == "image/webp"@ <==> e == "webp"@,
        mime_of(e) == "image/bmp"@ <==> e == "bmp"@,
        mime_of(e) == "application/pdf"@ <==> e == "pdf"@,
        mime_of(e) == "application/vnd.ms-powerpoint"@ <==> e == "ppt"@ || e == "pps"@,
        mime_of(e) == "application/vnd.openxmlformats-officedocument.presentationml.presentation"@ <==> e == "pptx"@,
        mime_of(e) == "application/vnd.openxmlformats-officedocument.presentationml.slideshow"@ <==> e == "ppsx"@,
        mime_of(e) == "application/octet-stream"@ <==> !(e == "mp4"@ || e == "webm"@ || e == "mov"@ || e == "m4v"@ || e
            == "jpg"@ || e == "jpeg"@ || e == "png"@ || e == "gif"@ || e == "webp"@ || e == "bmp"@ || e == "pdf"@ || e
            == "ppt"@ || e == "pps"@ || e == "pptx"@ || e == "ppsx"@),
{
    lemma_letters();
    assert("pptx"@[0] == 'p' && "pptx"@[2] == 't' && "ppsx"@[0] == 'p' && "ppsx"@[2] == 's');
    assert("webm"@[0] == 'w' && "webp"@[0] == 'w' && "webm"@[3] == 'm' && "webp"@[3] == 'p' && "jpeg"@[0] == 'j');
    reveal_strlit("application/octet-stream");
    reveal_strlit("video/mp4");
    reveal_strlit("video/webm");
    reveal_strlit("video/quicktime");
    reveal_strlit("image/jpeg");
    reveal_strlit("image/png");
    reveal_strlit("image/gif");
    reveal_strlit("image/webp");
    reveal_strlit("image/bmp");
    reveal_strlit("application/pdf");
    reveal_strlit("application/vnd.ms-powerpoint");
    reveal_strlit("application/vnd.openxmlformats-officedocument.presentationml.presentation");
    reveal_strlit("application/vnd.openxmlformats-officedocument.presentationml.slideshow");
    assert("video/mp4"@[0] == 'v' && "video/mp4"@.len() == 9);
    assert("video/webm"@[0] == 'v' && "video/webm"@.len() == 10);
    assert("video/quicktime"@[0] == 'v' && "video/quicktime"@.len() == 15);
    assert("image/png"@[6] == 'p' && "image/png"@[0] == 'i' && "image/png"@.len() == 9);
    assert("image/gif"@[6] == 'g' && "image/gif"@[0] == 'i' && "image/gif"@.len() == 9);
    assert("image/bmp"@[6] == 'b' && "image/bmp"@[0] == 'i' && "image/bmp"@.len() == 9);
    assert("image/jpeg"@[6] == 'j' && "image/jpeg"@[0] == 'i' && "image/jpeg"@.len() == 10);
    assert("image/webp"@[6] == 'w' && "image/webp"@[0] == 'i' && "image/webp"@.len() == 10);
    assert("application/pdf"@[0] == 'a' && "application/pdf"@.len() == 15);
    assert("application/octet-stream"@.len() == 24);
    assert("application/vnd.ms-powerpoint"@.len() == 29);
    assert("application/vnd.openxmlformats-officedocument.presentationml.presentation"@.len() == 73);
    assert("application/vnd.openxmlformats-officedocument.presentationml.slideshow"@.len() == 70);
    if e == "pptx"@ || e == "ppsx"@ {
        assert(e.len() == 4 && "ppt"@.len() == 3 && "pps"@.len() == 3 && "pdf"@.len() == 3);
        assert(e != "webm"@ && e != "jpeg"@ && e != "webp"@);
        assert(e == "ppsx"@ ==> e != "pptx"@);
    }
}

/// A media file is looked for among the videos, then among the images, then among
/// the slides, and nowhere else.
pub proof fn media_folders_are_searched_in_turn(present: Seq<Seq<char>>)
    ensures
        first_folder(media_table(), present) == Some("videos"@) <==> present.contains("videos"@),
        first_folder(media_table(), present) == Some("images"@) <==> present.contains("images"@) && !present.contains(
            "videos"@,
        ),
        first_folder(media_table(), present) == Some("ppt"@) <==> present.contains("ppt"@) && !present.contains(
            "videos"@,
        ) && !present.contains("images"@),
        first_folder(media_table(), present) is None <==> !present.contains("videos"@) && !present.contains("images"@)
            && !present.contains("ppt"@),
{
    lemma_kind_names();
    let table = media_table();
    reveal_with_fuel(first_folder, 4);
    assert(table.drop_first()[0] == table[1]);
    assert(table.drop_first().drop_first()[0] == table[2]);
    assert(table[0].1 == "videos"@ && table[1].1 == "images"@ && table[2].1 == "ppt"@);
}

} // verus!

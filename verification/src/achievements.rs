//! Uploading, describing and deleting achievements.
use vstd::prelude::*;

use crate::json;
use crate::listing;
use crate::media;
use crate::media::{find_media_file_by_name, folder_for_media_type, media_type_for_extension};
use crate::meta::{AchievementMeta, MetaStore, MetaView};
use crate::names;
use crate::names::{normalize_filename, FilePath, FilePathView};
use crate::poster;
use crate::poster::save_video_poster;
use crate::poster_job;
use crate::text;
use crate::text::{decimal_text, is_blank, same_text, trim};

verus! {

/// What is said of an achievement when it is uploaded or described anew.
pub struct Submission {
    pub title: String,
    pub owner: String,
    pub patent_no: String,
    pub description: String,
}

/// The answer to an upload.
pub struct UploadResult {
    pub ok: bool,
    pub file_name: String,
    pub media_type: String,
}

/// The answer to any other action.
pub struct ActionResult {
    pub ok: bool,
}

/// Where an upload goes: the name it asks for, its kind, and the folder.
pub struct UploadPlan {
    pub file_name: String,
    pub media_type: String,
    pub folder: String,
}

/// The kind of the file that an upload called `file_name` becomes.
pub open spec fn upload_type(file_name: Seq<char>) -> Option<Seq<char>> {
    media::media_type_of(names::parts_of(Some(names::normalized(file_name))).extension_or_empty())
}

/// Why an upload is refused, if it is.
pub open spec fn upload_error(file_name: Seq<char>, data: Seq<u8>) -> Option<Seq<char>> {
    if data.len() == 0 {
        Some("上传文件内容为空"@)
    } else if upload_type(file_name) is None {
        Some("文件格式不受支持"@)
    } else {
        None
    }
}

/// Where an upload goes; empty files and files of other formats are refused.
pub fn plan_upload(file_name: &str, data: &Vec<u8>) -> (res: Result<UploadPlan, String>)
    ensures
        match res {
            Ok(plan) => {
                &&& upload_error(file_name@, data@) is None
                &&& plan.file_name@ == names::normalized(file_name@)
                &&& upload_type(file_name@) == Some(plan.media_type@)
                &&& plan.folder@ == media::folder_of(plan.media_type@)
            },
            Err(message) => upload_error(file_name@, data@) == Some(message@),
        },
{
    if data.len() == 0 {
        return Err("上传文件内容为空".to_owned());
    }
    let cleaned = normalize_filename(file_name);
    proof {
        names::normalized_is_clean(file_name@);
        names::clean_is_plain(cleaned@);
    }
    let path = FilePath::of(cleaned.as_str());
    match media_type_for_extension(path.extension_or_empty().as_str()) {
        Some(media_type) => Ok(
            UploadPlan {
                file_name: cleaned,
                media_type: media_type.to_owned(),
                folder: folder_for_media_type(media_type).to_owned(),
            },
        ),
        None => Err("文件格式不受支持".to_owned()),
    }
}

/// The text of a time in seconds since the epoch; empty where it is not known.
pub open spec fn stamp(now: Option<u64>) -> Seq<char> {
    match now {
        Some(seconds) => text::decimal(seconds as nat),
        None => Seq::empty(),
    }
}

/// The text of a time in seconds since the epoch; empty where it is not known.
pub fn time_stamp(now: Option<u64>) -> (res: String)
    ensures
        res@ == stamp(now),
{
    match now {
        Some(seconds) => decimal_text(seconds),
        None => String::new(),
    }
}

/// The title of a file that is given none: its stem, if it has one.
pub open spec fn fallback_title(parts: FilePathView) -> Seq<char> {
    match parts.stem {
        Some(stem) => stem,
        None => "成果"@,
    }
}

/// The description that a submission makes up: trimmed, with a fallback for a
/// blank title.
pub open spec fn described(submission: Submission, fallback: Seq<char>, created_at: Seq<char>) -> MetaView {
    MetaView {
        title: if text::trimmed(submission.title@).len() == 0 {
            fallback
        } else {
            text::trimmed(submission.title@)
        },
        owner: text::trimmed(submission.owner@),
        patent_no: text::trimmed(submission.patent_no@),
        description: text::trimmed(submission.description@),
        created_at,
    }
}

/// The description that a submission makes up for a file.
fn describe(submission: &Submission, path: &FilePath, created_at: String) -> (res: AchievementMeta)
    ensures
        res@ == described(*submission, fallback_title(path@), created_at@),
{
    let fallback = match &path.stem {
        Some(stem) => stem.clone(),
        None => "成果".to_owned(),
    };
    let title = trim(submission.title.as_str());
    AchievementMeta {
        title: if title.as_str().is_empty() {
            fallback
        } else {
            title
        },
        owner: trim(submission.owner.as_str()),
        patent_no: trim(submission.patent_no.as_str()),
        description: trim(submission.description.as_str()),
        created_at,
    }
}

/// Describes the file that was written at `path`; the answer gives its name.
pub fn record_upload(
    store: &mut MetaStore,
    path: &FilePath,
    media_type: String,
    submission: &Submission,
    now: Option<u64>,
) -> (res: UploadResult)
    ensures
        res.ok,
        res.media_type@ == media_type@,
        res.file_name@ == path@.name_or_empty(),
        final(store)@ == old(store)@.insert(
            res.file_name@,
            described(*submission, fallback_title(path@), stamp(now)),
        ),
{
    let name = match &path.name {
        Some(name) => name.clone(),
        None => String::new(),
    };
    let meta = describe(submission, path, time_stamp(now));
    store.insert(name.clone(), meta);
    UploadResult { ok: true, file_name: name, media_type }
}

/// Describes the file that was written as `saved_as`, a free name for the name in
/// the plan. The answer gives that name.
pub fn upload_achievement(
    store: &mut MetaStore,
    plan: &UploadPlan,
    saved_as: &str,
    submission: &Submission,
    now: Option<u64>,
) -> (res: UploadResult)
    ensures
        res.ok,
        res.media_type@ == plan.media_type@,
        exists|parts: FilePathView|
            {
                &&& #[trigger] names::path_outcome(saved_as@, parts)
                &&& res.file_name@ == parts.name_or_empty()
                &&& final(store)@ == old(store)@.insert(
                    res.file_name@,
                    described(*submission, fallback_title(parts), stamp(now)),
                )
            },
        names::portable_path(saved_as@) ==> {
            &&& res.file_name@ == names::path_parts(saved_as@).name_or_empty()
            &&& final(store)@ == old(store)@.insert(
                res.file_name@,
                described(*submission, fallback_title(names::path_parts(saved_as@)), stamp(now)),
            )
        },
        names::plain_name(saved_as@) ==> {
            &&& res.file_name@ == saved_as@
            &&& final(store)@ == old(store)@.insert(
                saved_as@,
                described(*submission, names::stem_of(saved_as@), stamp(now)),
            )
        },
{
    let path = FilePath::of(saved_as);
    record_upload(store, &path, plan.media_type.clone(), submission, now)
}

/// Whether an upload takes a poster: only a video does. A poster that is handed in
/// with anything else is ignored, and none is made for it.
pub fn takes_poster(plan: &UploadPlan) -> (res: bool)
    ensures
        res == (plan.media_type@ == "video"@),
{
    same_text(plan.media_type.as_str(), "video")
}

/// The name under which a poster that is handed in with an upload is saved, given
/// the kind of the upload and the parts of its name.
pub open spec fn upload_poster(media_type: Seq<char>, parts: FilePathView, poster_data: Seq<u8>) -> Option<Seq<char>> {
    if media_type == "video"@ {
        poster::saved_poster(parts.stem_or_empty(), poster_data)
    } else {
        None
    }
}

/// The name in the poster folder under which `poster_data` is saved with an upload
/// that was written as `saved_as`; `None` where it is no video or there is nothing
/// to save.
pub fn poster_for_upload(plan: &UploadPlan, saved_as: &str, poster_data: &Vec<u8>) -> (res: Option<String>)
    ensures
        plan.media_type@ != "video"@ ==> res is None,
        poster_data@.len() == 0 ==> res is None,
        exists|parts: FilePathView|
            #[trigger] names::path_outcome(saved_as@, parts) && res.deep_view() == upload_poster(
                plan.media_type@,
                parts,
                poster_data@,
            ),
        names::portable_path(saved_as@) ==> res.deep_view() == upload_poster(
            plan.media_type@,
            names::path_parts(saved_as@),
            poster_data@,
        ),
        plan.media_type@ == "video"@ && names::plain_name(saved_as@) && poster_data@.len() > 0 ==> res.deep_view()
            == Some(names::stem_of(saved_as@) + "."@ + "jpg"@),
{
    let poster = save_video_poster(saved_as, poster_data);
    if takes_poster(plan) {
        poster
    } else {
        None
    }
}

/// When an achievement was created: a time that is known stays.
pub open spec fn creation_time(meta: Map<Seq<char>, MetaView>, file_name: Seq<char>, now: Option<u64>) -> Seq<char> {
    if meta.contains_key(file_name) && text::trimmed(meta[file_name].created_at).len() > 0 {
        meta[file_name].created_at
    } else {
        stamp(now)
    }
}

/// The descriptions after a file was described anew.
pub open spec fn updated(
    meta: Map<Seq<char>, MetaView>,
    file_name: Seq<char>,
    parts: FilePathView,
    submission: Submission,
    now: Option<u64>,
) -> Map<Seq<char>, MetaView> {
    meta.insert(
        file_name,
        described(submission, fallback_title(parts), creation_time(meta, file_name, now)),
    )
}

/// Whether there is anything to describe or delete: a file of that name in a
/// media folder, or a description of it.
pub open spec fn is_known(
    meta: Map<Seq<char>, MetaView>,
    file_name: Seq<char>,
    present: Seq<Seq<char>>,
) -> bool {
    media::first_folder(media::media_table(), present) is Some || meta.contains_key(file_name)
}

/// Describes a file anew, given the parts of its name and the folders in which it
/// is present.
pub fn update_description(
    store: &mut MetaStore,
    file_name: &str,
    path: &FilePath,
    present: &Vec<String>,
    submission: &Submission,
    now: Option<u64>,
) -> (res: Result<ActionResult, String>)
    ensures
        match res {
            Ok(answer) => {
                &&& is_known(old(store)@, file_name@, present.deep_view())
                &&& answer.ok
                &&& final(store)@ == updated(old(store)@, file_name@, path@, *submission, now)
            },
            Err(message) => {
                &&& !is_known(old(store)@, file_name@, present.deep_view())
                &&& message@ == "未找到该成果"@
                &&& final(store)@ == old(store)@
            },
        },
{
    let file_exists = find_media_file_by_name(present).is_some();
    if !file_exists && !store.contains_key(file_name) {
        return Err("未找到该成果".to_owned());
    }
    let old_created_at = store.get_or_default(file_name).created_at;
    let created_at = if is_blank(old_created_at.as_str()) {
        time_stamp(now)
    } else {
        old_created_at
    };
    let meta = describe(submission, path, created_at);
    store.insert(file_name.to_owned(), meta);
    Ok(ActionResult { ok: true })
}

/// Describes a file anew. `present` holds the folders in which a file of that
/// name is present. A name that has neither a file nor a description is refused.
/// A creation time that is known stays.
pub fn update_achievement_meta(
    store: &mut MetaStore,
    file_name: &str,
    present: &Vec<String>,
    submission: &Submission,
    now: Option<u64>,
) -> (res: Result<ActionResult, String>)
    ensures
        match res {
            Ok(answer) => {
                &&& is_known(old(store)@, file_name@, present.deep_view())
                &&& answer.ok
                &&& exists|parts: FilePathView|
                    #[trigger] names::path_outcome(file_name@, parts) && final(store)@ == updated(
                        old(store)@,
                        file_name@,
                        parts,
                        *submission,
                        now,
                    )
                &&& names::portable_path(file_name@) ==> final(store)@ == updated(
                    old(store)@,
                    file_name@,
                    names::path_parts(file_name@),
                    *submission,
                    now,
                )
                &&& names::plain_name(file_name@) ==> final(store)@ == updated(
                    old(store)@,
                    file_name@,
                    names::parts_of(Some(file_name@)),
                    *submission,
                    now,
                )
            },
            Err(message) => {
                &&& !is_known(old(store)@, file_name@, present.deep_view())
                &&& message@ == "未找到该成果"@
                &&& final(store)@ == old(store)@
            },
        },
{
    let path = FilePath::of(file_name);
    update_description(store, file_name, &path, present, submission, now)
}

/// Whether a file is a video, by its extension.
pub open spec fn is_video(parts: FilePathView) -> bool {
    media::media_type_of(parts.extension_or_empty()) == Some("video"@)
}

/// Whether a file is a video, by its extension.
pub fn is_video_path(path: &FilePath) -> (res: bool)
    ensures
        res == is_video(path@),
{
    match media_type_for_extension(path.extension_or_empty().as_str()) {
        Some(media_type) => same_text(media_type, "video"),
        None => false,
    }
}

/// Whether posters are deleted along with a file: if its name is the name of a
/// video, or the file that was found under it is one.
pub fn deletes_posters(file_name: &str, found: Option<&FilePath>) -> (res: bool)
    ensures
        exists|parts: FilePathView|
            #[trigger] names::path_outcome(file_name@, parts) && res == (is_video(parts) || (found matches Some(path)
                && is_video(path@))),
        names::portable_path(file_name@) ==> res == (is_video(names::path_parts(file_name@)) || (
        found matches Some(path) && is_video(path@))),
        names::plain_name(file_name@) ==> res == (is_video(names::parts_of(Some(file_name@))) || (
        found matches Some(path) && is_video(path@))),
{
    let by_name = is_video_path(&FilePath::of(file_name));
    let by_file = match found {
        Some(path) => is_video_path(path),
        None => false,
    };
    by_name || by_file
}

/// What is left to do when a file was deleted: whether the descriptions changed
/// and have to be saved.
pub struct Deletion {
    pub answer: ActionResult,
    pub save: bool,
}

/// Removes the description of a file. It is an error if there was neither a file,
/// which is then deleted already, nor a description.
pub fn delete_achievement(store: &mut MetaStore, file_name: &str, deleted_file: bool) -> (res: Result<Deletion, String>)
    ensures
        final(store)@ == old(store)@.remove(file_name@),
        match res {
            Ok(deletion) => {
                &&& deleted_file || old(store)@.contains_key(file_name@)
                &&& deletion.answer.ok
                &&& deletion.save == old(store)@.contains_key(file_name@)
            },
            Err(message) => {
                &&& !deleted_file && !old(store)@.contains_key(file_name@)
                &&& message@ == "未找到该成果"@
            },
        },
{
    let removed = store.remove(file_name);
    if !deleted_file && !removed {
        return Err("未找到该成果".to_owned());
    }
    Ok(Deletion { answer: ActionResult { ok: true }, save: removed })
}

/// A file that was uploaded is listed under its kind, from the folder that the
/// upload went to, unless it is an image with the stem of a video.
pub proof fn uploaded_file_is_listed(
    file_name: Seq<char>,
    taken: Seq<Seq<char>>,
    saved_as: Seq<char>,
    videos: listing::Folder,
    entry: listing::DirEntry,
)
    requires
        upload_type(file_name) is Some,
        names::is_first_free(
            names::normalized(file_name),
            names::parts_of(Some(names::normalized(file_name))),
            taken,
            saved_as,
        ),
        entry.is_file,
        entry.path@ == names::parts_of(Some(saved_as)),
    ensures
        exists|r: int|
            {
                &&& 0 <= r < media::media_table().len()
                &&& (#[trigger] media::media_table()[r]).0 == upload_type(file_name).unwrap()
                &&& media::media_table()[r].1 == media::folder_of(upload_type(file_name).unwrap())
                &&& listing::is_listed(media::media_table()[r], videos, entry) || (media::media_table()[r].0
                    == "image"@ && listing::is_video_stem(videos, names::stem_of(saved_as)))
            },
{
    let name = names::normalized(file_name);
    let extension = names::parts_of(Some(name)).extension_or_empty();
    names::normalized_is_clean(file_name);
    media::supported_extension_is_not_empty(extension);
    names::free_name_keeps_extension(name, taken, saved_as);
    media::kind_has_its_folder(extension);
    let r = choose|r: int|
        {
            &&& 0 <= r < media::media_table().len()
            &&& (#[trigger] media::media_table()[r]).0 == media::media_type_of(extension).unwrap()
            &&& media::media_table()[r].1 == media::folder_of(media::media_type_of(extension).unwrap())
            &&& media::media_table()[r].3.contains(text::lowercase(extension))
        };
    assert(entry.path@.extension_or_empty() == extension);
}

/// The name under which an upload is kept is never the reserved key, so that its
/// description survives the file.
pub proof fn uploads_survive_the_file(name: Seq<char>)
    requires
        names::clean_name(name),
    ensures
        !json::reserved_key(name),
{
    reveal_strlit("$serde_json::private::RawValue");
    assert("$serde_json::private::RawValue"@[0] == '$');
    assert(names::kept_char(name[0]));
}

/// An upload is listed with the description that was made of its submission, and
/// shown under the title of that description.
pub proof fn uploaded_description_is_shown(
    meta: Map<Seq<char>, MetaView>,
    saved_as: Seq<char>,
    submission: Submission,
    now: Option<u64>,
    row: media::MediaRow,
    entry: listing::DirEntry,
    size: u64,
)
    requires
        names::clean_name(saved_as),
        entry.path@ == names::parts_of(Some(saved_as)),
    ensures
        ({
            let description = described(submission, names::stem_of(saved_as), stamp(now));
            let item = listing::item_of(meta.insert(saved_as, description), row, entry, size);
            &&& item.name == saved_as
            &&& item.display_name == description.title
            &&& item.achievement == description
        }),
{
    let stem = names::stem_of(saved_as);
    let description = described(submission, stem, stamp(now));
    names::stem_is_not_empty(saved_as);
    text::trimmed_is_idempotent(submission.title@);
    assert(names::kept_char(saved_as[0]));
    assert(names::kept_char(saved_as[stem.len() - 1]));
    assert(stem[0] == saved_as[0] && stem[stem.len() - 1] == saved_as[stem.len() - 1]);
    text::trimmed_is_identity(stem);
    assert(text::trimmed(description.title).len() > 0);
}

/// A poster that was handed in with a video and saved under the name it is given is
/// the poster of that video, and no other one is made: the poster job has nothing
/// to do.
pub proof fn handed_in_poster_is_the_poster(
    saved_as: Seq<char>,
    poster_data: Seq<u8>,
    found: Seq<(Seq<char>, Seq<char>)>,
    shown: Seq<char>,
    images: Option<Seq<(Seq<char>, Seq<char>)>>,
)
    requires
        upload_poster("video"@, names::path_parts(saved_as), poster_data) matches Some(name)
            && poster::shown_as(found, name) == Some(shown),
        shown.len() > 0,
    ensures
        ({
            let stem = names::path_parts(saved_as).stem_or_empty();
            let existing = poster::poster_of(stem, Some(found), images);
            &&& existing == shown
            &&& poster_job::first_step(existing, stem) == poster_job::PosterStep::Finished
        }),
{
    poster::saved_poster_is_found(names::path_parts(saved_as).stem_or_empty(), found, shown, images);
}

/// Describing an achievement anew keeps a creation time that is known, and leaves
/// the descriptions of other files alone.
pub proof fn update_keeps_the_rest(
    meta: Map<Seq<char>, MetaView>,
    file_name: Seq<char>,
    parts: FilePathView,
    submission: Submission,
    now: Option<u64>,
    other: Seq<char>,
)
    ensures
        meta.contains_key(file_name) && text::trimmed(meta[file_name].created_at).len() > 0 ==> updated(
            meta,
            file_name,
            parts,
            submission,
            now,
        )[file_name].created_at == meta[file_name].created_at,
        other != file_name ==> (updated(meta, file_name, parts, submission, now).contains_key(other)
            <==> meta.contains_key(other)),
        other != file_name && meta.contains_key(other) ==> updated(meta, file_name, parts, submission, now)[other]
            == meta[other],
{
}

/// Where the time is known, describing a file twice in the same words, whenever,
/// is the same as describing it once.
pub proof fn update_is_idempotent(
    meta: Map<Seq<char>, MetaView>,
    file_name: Seq<char>,
    parts: FilePathView,
    submission: Submission,
    now: u64,
    later: Option<u64>,
)
    ensures
        updated(updated(meta, file_name, parts, submission, Some(now)), file_name, parts, submission, later)
            == updated(meta, file_name, parts, submission, Some(now)),
{
    let digits = text::decimal(now as nat);
    text::decimal_is_digits(now as nat);
    assert('0' <= digits[0] <= '9' && '0' <= digits[digits.len() - 1] <= '9');
    text::trimmed_is_identity(digits);
    let once = updated(meta, file_name, parts, submission, Some(now));
    assert(updated(once, file_name, parts, submission, later) =~= once);
}

/// An achievement that was uploaded can be described and deleted by the name that
/// the upload answered; once it is deleted, it is not known any more.
pub proof fn uploads_are_known_until_deleted(
    meta: Map<Seq<char>, MetaView>,
    saved_as: Seq<char>,
    description: MetaView,
    present: Seq<Seq<char>>,
)
    ensures
        is_known(meta.insert(saved_as, description), saved_as, present),
        media::first_folder(media::media_table(), present) is None ==> !is_known(
            meta.insert(saved_as, description).remove(saved_as),
            saved_as,
            present,
        ),
{
}

/// A later upload takes neither the name of an earlier one nor its description:
/// where both go to the same folder, the name of the earlier one is taken there.
pub proof fn uploads_do_not_meet(
    first_name: Seq<char>,
    first_taken: Seq<Seq<char>>,
    first: Seq<char>,
    second_name: Seq<char>,
    second_taken: Seq<Seq<char>>,
    second: Seq<char>,
    meta: Map<Seq<char>, MetaView>,
    description: MetaView,
    other: MetaView,
)
    requires
        upload_type(first_name) is Some,
        upload_type(second_name) is Some,
        names::is_first_free(
            names::normalized(first_name),
            names::parts_of(Some(names::normalized(first_name))),
            first_taken,
            first,
        ),
        names::is_first_free(
            names::normalized(second_name),
            names::parts_of(Some(names::normalized(second_name))),
            second_taken,
            second,
        ),
        media::folder_of(upload_type(first_name).unwrap()) == media::folder_of(upload_type(second_name).unwrap())
            ==> second_taken.contains(first),
    ensures
        first != second,
        meta.insert(first, description).insert(second, other).contains_key(first),
        meta.insert(first, description).insert(second, other)[first] == description,
{
    let a = names::normalized(first_name);
    let b = names::normalized(second_name);
    names::normalized_is_clean(first_name);
    names::normalized_is_clean(second_name);
    media::supported_extension_is_not_empty(names::parts_of(Some(a)).extension_or_empty());
    media::supported_extension_is_not_empty(names::parts_of(Some(b)).extension_or_empty());
    names::free_name_keeps_extension(a, first_taken, first);
    names::free_name_keeps_extension(b, second_taken, second);
}

/// An upload is refused exactly if it is empty or its name, as it is kept, does not
/// end in a dot and one of the supported extensions, in capitals or not; the empty
/// file is the first reason. Otherwise its kind is that of the extension.
pub proof fn uploads_that_are_taken(file_name: Seq<char>, data: Seq<u8>, stem: Seq<char>, extension: Seq<char>)
    requires
        stem.len() > 0,
        !extension.contains('.'),
        names::normalized(file_name) == stem + seq!['.'] + extension,
    ensures
        ({
            let e = text::lowercase(extension);
            let video = e == "mp4"@ || e == "webm"@ || e == "mov"@ || e == "m4v"@;
            let image = e == "jpg"@ || e == "jpeg"@ || e == "png"@ || e == "gif"@ || e == "webp"@ || e == "bmp"@;
            let slides = e == "ppt"@ || e == "pptx"@ || e == "pps"@ || e == "ppsx"@ || e == "pdf"@;
            &&& upload_type(file_name) == if video {
                Some("video"@)
            } else if image {
                Some("image"@)
            } else if slides {
                Some("ppt"@)
            } else {
                None
            }
            &&& upload_error(file_name, data) == if data.len() == 0 {
                Some("上传文件内容为空"@)
            } else if video || image || slides {
                None
            } else {
                Some("文件格式不受支持"@)
            }
        }),
{
    names::parts_follow_the_file_name(file_name, stem, extension);
    media::kinds_by_extension(extension);
}

/// An upload whose name, as it is kept, has no dot after its first character has no
/// kind and is refused, for being empty if it is.
pub proof fn uploads_without_extension_are_refused(file_name: Seq<char>, data: Seq<u8>)
    requires
        forall|i: int|
            0 < i < names::normalized(file_name).len() ==> #[trigger] names::normalized(file_name)[i] != '.',
    ensures
        upload_type(file_name) is None,
        upload_error(file_name, data) == if data.len() == 0 {
            Some("上传文件内容为空"@)
        } else {
            Some("文件格式不受支持"@)
        },
{
    let name = names::normalized(file_name);
    names::parts_follow_the_file_name(name, seq!['x'], Seq::empty());
    media::kinds_by_extension(Seq::empty());
    if upload_type(file_name) is Some {
        media::supported_extension_is_not_empty(Seq::empty());
    }
}

/// What an upload records, field by field: the trimmed fields of the submission, the
/// stem of the file for a blank title, and the time in decimal where it is known.
pub proof fn uploads_record_the_submission(submission: Submission, parts: FilePathView, now: Option<u64>)
    ensures
        ({
            let record = described(submission, fallback_title(parts), stamp(now));
            &&& record.owner == text::trimmed(submission.owner@)
            &&& record.patent_no == text::trimmed(submission.patent_no@)
            &&& record.description == text::trimmed(submission.description@)
            &&& text::trimmed(submission.title@).len() > 0 ==> record.title == text::trimmed(submission.title@)
            &&& text::trimmed(submission.title@).len() == 0 ==> record.title == match parts.stem {
                Some(stem) => stem,
                None => "成果"@,
            }
            &&& now matches Some(seconds) ==> text::number_of(record.created_at) == seconds && record.created_at
                == text::decimal(seconds as nat)
            &&& now is None ==> record.created_at.len() == 0
        }),
{
    if let Some(seconds) = now {
        text::decimal_reads_back(seconds as nat);
    }
}

/// After an update the record of the file holds the trimmed fields of the submission,
/// whatever it held before, with the stem of the file for a blank title. A time that
/// was known and is not blank stays to the letter; else the record gets the present
/// time. No other record is added, changed or lost.
pub proof fn updates_replace_the_record(
    meta: Map<Seq<char>, MetaView>,
    file_name: Seq<char>,
    parts: FilePathView,
    submission: Submission,
    now: Option<u64>,
    other: Seq<char>,
)
    ensures
        ({
            let after = updated(meta, file_name, parts, submission, now);
            let record = after[file_name];
            let known = meta.contains_key(file_name) && text::trimmed(meta[file_name].created_at).len() > 0;
            &&& after.contains_key(file_name)
            &&& record.owner == text::trimmed(submission.owner@)
            &&& record.patent_no == text::trimmed(submission.patent_no@)
            &&& record.description == text::trimmed(submission.description@)
            &&& text::trimmed(submission.title@).len() > 0 ==> record.title == text::trimmed(submission.title@)
            &&& text::trimmed(submission.title@).len() == 0 ==> record.title == match parts.stem {
                Some(stem) => stem,
                None => "成果"@,
            }
            &&& known ==> record.created_at == meta[file_name].created_at
            &&& !known ==> match now {
                Some(seconds) => text::number_of(record.created_at) == seconds && record.created_at == text::decimal(
                    seconds as nat,
                ),
                None => record.created_at.len() == 0,
            }
            &&& other != file_name ==> (after.contains_key(other) <==> meta.contains_key(other))
            &&& other != file_name && meta.contains_key(other) ==> after[other] == meta[other]
        }),
{
    if let Some(seconds) = now {
        text::decimal_reads_back(seconds as nat);
    }
}

/// A name is known exactly if a file of that name is in the folder of the videos, the
/// images or the slides, or it has a description.
pub proof fn known_names(meta: Map<Seq<char>, MetaView>, file_name: Seq<char>, present: Seq<Seq<char>>)
    ensures
        is_known(meta, file_name, present) <==> present.contains("videos"@) || present.contains("images"@)
            || present.contains("ppt"@) || meta.contains_key(file_name),
{
    media::media_folders_are_searched_in_turn(present);
}

/// A file is a video, and takes its posters with it when it is deleted, exactly if
/// its extension is mp4, webm, mov or m4v, in capitals or not. Images, slides, other
/// files and files without an extension are none.
pub proof fn videos_by_extension(parts: FilePathView)
    ensures
        is_video(parts) <==> (parts.extension matches Some(extension) && {
            let e = text::lowercase(extension);
            e == "mp4"@ || e == "webm"@ || e == "mov"@ || e == "m4v"@
        }),
{
    media::kinds_by_extension(parts.extension_or_empty());
    if parts.extension is None && is_video(parts) {
        media::supported_extension_is_not_empty(parts.extension_or_empty());
    }
}

/// A poster that is handed in is saved exactly if the upload is a video with a stem
/// and the poster is not empty, and then under that stem with the ending .jpg.
pub proof fn posters_that_are_saved(media_type: Seq<char>, parts: FilePathView, poster_data: Seq<u8>)
    ensures
        upload_poster(media_type, parts, poster_data) == match parts.stem {
            Some(stem) => if media_type == "video"@ && stem.len() > 0 && poster_data.len() > 0 {
                Some(stem + ".jpg"@)
            } else {
                None
            },
            None => None,
        },
{
    poster::posters_are_saved_as_jpg(parts.stem_or_empty(), poster_data);
}

/// Deleting a file takes its description away and leaves all others. It is refused
/// exactly if there was neither a file nor a description, and the descriptions have
/// to be saved exactly if one was taken away.
pub proof fn deleting_takes_one_description(
    store: &mut MetaStore,
    file_name: &str,
    deleted_file: bool,
    res: Result<Deletion, String>,
    other: Seq<char>,
)
    requires
        call_ensures(delete_achievement, (store, file_name, deleted_file), res),
    ensures
        !final(store)@.contains_key(file_name@),
        other != file_name@ ==> (final(store)@.contains_key(other) <==> old(store)@.contains_key(other)),
        other != file_name@ && old(store)@.contains_key(other) ==> final(store)@[other] == old(store)@[other],
        res is Ok <==> deleted_file || old(store)@.contains_key(file_name@),
        res matches Ok(deletion) ==> deletion.answer.ok && deletion.save == old(store)@.contains_key(file_name@),
        res matches Err(message) ==> message@ == "未找到该成果"@,
{
}

/// Deleting a file takes posters with it exactly if its name, or the file that was
/// found, ends in a dot and mp4, webm, mov or m4v, in capitals or not.
pub proof fn only_videos_take_posters_with_them(
    file_name: &str,
    found: Option<&FilePath>,
    res: bool,
    stem: Seq<char>,
    extension: Seq<char>,
)
    requires
        call_ensures(deletes_posters, (file_name, found), res),
        names::plain_name(file_name@),
        file_name@ == stem + seq!['.'] + extension,
        stem.len() > 0,
        !extension.contains('.'),
    ensures
        ({
            let video = |extension: Seq<char>|
                {
                    let e = text::lowercase(extension);
                    e == "mp4"@ || e == "webm"@ || e == "mov"@ || e == "m4v"@
                };
            res <==> video(extension) || (found matches Some(path) && path@.extension is Some && video(
                path@.extension.unwrap(),
            ))
        }),
{
    names::parts_follow_the_file_name(file_name@, stem, extension);
    videos_by_extension(names::parts_of(Some(file_name@)));
    if let Some(path) = found {
        videos_by_extension(path@);
    }
}

/// Describing a file anew is refused exactly if it is in no media folder and has no
/// description, and then changes nothing. Otherwise the file gets what was said of
/// it, trimmed, whatever was said before, and a blank title is replaced by the stem;
/// a time of creation that is not blank stays; and no other description changes.
pub proof fn describing_replaces_what_was_said(
    store: &mut MetaStore,
    file_name: &str,
    present: &Vec<String>,
    submission: &Submission,
    now: Option<u64>,
    res: Result<ActionResult, String>,
    other: Seq<char>,
)
    requires
        call_ensures(update_achievement_meta, (store, file_name, present, submission, now), res),
    ensures
        res is Ok <==> present.deep_view().contains("videos"@) || present.deep_view().contains("images"@)
            || present.deep_view().contains("ppt"@) || old(store)@.contains_key(file_name@),
        res matches Err(message) ==> message@ == "未找到该成果"@ && final(store)@ == old(store)@,
        res matches Ok(answer) ==> ({
            let record = final(store)@[file_name@];
            let known = old(store)@.contains_key(file_name@) && text::trimmed(
                old(store)@[file_name@].created_at,
            ).len() > 0;
            &&& answer.ok
            &&& final(store)@.contains_key(file_name@)
            &&& record.owner == text::trimmed(submission.owner@)
            &&& record.patent_no == text::trimmed(submission.patent_no@)
            &&& record.description == text::trimmed(submission.description@)
            &&& text::trimmed(submission.title@).len() > 0 ==> record.title == text::trimmed(submission.title@)
            &&& text::trimmed(submission.title@).len() == 0 && names::plain_name(file_name@) ==> record.title
                == names::stem_of(file_name@)
            &&& known ==> record.created_at == old(store)@[file_name@].created_at
            &&& !known && now is Some ==> text::number_of(record.created_at) == now.unwrap() && record.created_at
                == text::decimal(now.unwrap() as nat)
            &&& !known && now is None ==> record.created_at.len() == 0
            &&& other != file_name@ ==> (final(store)@.contains_key(other) <==> old(store)@.contains_key(other))
            &&& other != file_name@ && old(store)@.contains_key(other) ==> final(store)@[other] == old(store)@[other]
        }),
{
    known_names(old(store)@, file_name@, present.deep_view());
    if res is Ok {
        let parts = choose|parts: FilePathView|
            #[trigger] names::path_outcome(file_name@, parts) && final(store)@ == updated(
                old(store)@,
                file_name@,
                parts,
                *submission,
                now,
            );
        updates_replace_the_record(old(store)@, file_name@, parts, *submission, now, other);
        if names::plain_name(file_name@) {
            let own = names::parts_of(Some(file_name@));
            updates_replace_the_record(old(store)@, file_name@, own, *submission, now, other);
        }
    }
}

/// An upload is answered with the name it was written as, and described under that
/// name by what was said of it, trimmed, with the stem for a blank title and the time
/// of the upload; no other description changes.
pub proof fn uploading_describes_the_file(
    store: &mut MetaStore,
    plan: &UploadPlan,
    saved_as: &str,
    submission: &Submission,
    now: Option<u64>,
    res: UploadResult,
    other: Seq<char>,
)
    requires
        call_ensures(upload_achievement, (store, plan, saved_as, submission, now), res),
        names::plain_name(saved_as@),
    ensures
        res.ok,
        res.file_name@ == saved_as@,
        res.media_type@ == plan.media_type@,
        final(store)@.contains_key(saved_as@),
        ({
            let record = final(store)@[saved_as@];
            &&& record.owner == text::trimmed(submission.owner@)
            &&& record.patent_no == text::trimmed(submission.patent_no@)
            &&& record.description == text::trimmed(submission.description@)
            &&& text::trimmed(submission.title@).len() > 0 ==> record.title == text::trimmed(submission.title@)
            &&& text::trimmed(submission.title@).len() == 0 ==> record.title == names::stem_of(saved_as@)
            &&& now is Some ==> text::number_of(record.created_at) == now.unwrap() && record.created_at
                == text::decimal(now.unwrap() as nat)
            &&& now is None ==> record.created_at.len() == 0
        }),
        other != saved_as@ ==> (final(store)@.contains_key(other) <==> old(store)@.contains_key(other)),
        other != saved_as@ && old(store)@.contains_key(other) ==> final(store)@[other] == old(store)@[other],
{
    uploads_record_the_submission(*submission, names::parts_of(Some(saved_as@)), now);
}

/// A file that is not empty and whose name ends in a dot and a supported extension is
/// taken, under its cleaned name, for the folder of its kind; an empty file and a file
/// with any other extension are refused, each with its reason.
pub proof fn uploads_go_to_the_folder_of_their_kind(
    file_name: &str,
    data: &Vec<u8>,
    res: Result<UploadPlan, String>,
    stem: Seq<char>,
    extension: Seq<char>,
)
    requires
        call_ensures(plan_upload, (file_name, data), res),
        stem.len() > 0,
        !extension.contains('.'),
        names::normalized(file_name@) == stem + seq!['.'] + extension,
    ensures
        ({
            let e = text::lowercase(extension);
            let video = e == "mp4"@ || e == "webm"@ || e == "mov"@ || e == "m4v"@;
            let image = e == "jpg"@ || e == "jpeg"@ || e == "png"@ || e == "gif"@ || e == "webp"@ || e == "bmp"@;
            let slides = e == "ppt"@ || e == "pptx"@ || e == "pps"@ || e == "ppsx"@ || e == "pdf"@;
            &&& res is Ok <==> data@.len() > 0 && (video || image || slides)
            &&& res matches Ok(plan) ==> {
                &&& plan.file_name@ == stem + seq!['.'] + extension
                &&& video ==> plan.media_type@ == "video"@ && plan.folder@ == "videos"@
                &&& image ==> plan.media_type@ == "image"@ && plan.folder@ == "images"@
                &&& slides ==> plan.media_type@ == "ppt"@ && plan.folder@ == "ppt"@
            }
            &&& res matches Err(message) ==> message@ == if data@.len() == 0 {
                "上传文件内容为空"@
            } else {
                "文件格式不受支持"@
            }
        }),
{
    uploads_that_are_taken(file_name@, data@, stem, extension);
    media::kinds_by_extension(extension);
    media::kinds_have_folders_and_labels("video"@, extension);
    media::kinds_have_folders_and_labels("image"@, extension);
    media::kinds_have_folders_and_labels("ppt"@, extension);
    reveal_strlit("video");
    reveal_strlit("image");
    reveal_strlit("ppt");
    assert("video"@[0] == 'v' && "image"@[0] == 'i' && "ppt"@[0] == 'p');
}

/// With a video, and with nothing else, a poster that is not empty is saved, under
/// the name of the video with the ending .jpg.
pub proof fn only_videos_are_given_posters(
    plan: &UploadPlan,
    saved_as: &str,
    poster_data: &Vec<u8>,
    takes: bool,
    res: Option<String>,
)
    requires
        call_ensures(takes_poster, (plan,), takes),
        call_ensures(poster_for_upload, (plan, saved_as, poster_data), res),
    ensures
        takes <==> plan.media_type@ == "video"@,
        !takes ==> res is None,
        poster_data@.len() == 0 ==> res is None,
        takes && poster_data@.len() > 0 && names::plain_name(saved_as@) ==> res.deep_view() == Some(
            names::stem_of(saved_as@) + ".jpg"@,
        ),
{
    poster::posters_are_saved_as_jpg(names::stem_of(saved_as@), poster_data@);
    if names::plain_name(saved_as@) {
        names::stem_is_not_empty(saved_as@);
    }
}

} // verus!

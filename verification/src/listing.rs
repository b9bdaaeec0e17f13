//! The list of all media: what was found in the folders, with descriptions and
//! posters, newest first.
use vstd::prelude::*;

use crate::media;
use crate::media::{contains_str, media_type_for_extension, media_types, mime_for_path, type_label, MediaRow};
use crate::meta;
use crate::meta::{AchievementMeta, MetaStore, MetaView};
use crate::names;
use crate::names::FilePath;
use crate::order;
use crate::order::{bytes_go_before, stable_order, LatestFirst, Ranked};
use crate::poster;
use crate::poster::{find_poster, FoundFiles};
use crate::text;
use crate::text::{contains_text, is_blank, same_text, to_lowercase};

verus! {

/// The size of a file and, where it is known, the time of its last change in
/// milliseconds since the epoch.
pub struct FileDetails {
    pub size: u64,
    pub modified: Option<u128>,
}

/// An entry of a media folder: its path, the bytes of its name, how its path is
/// shown, whether it is a file, its details or why they cannot be had, and the
/// poster candidates of its stem that are there.
pub struct DirEntry {
    pub path: FilePath,
    pub name_bytes: Vec<u8>,
    pub shown: String,
    pub is_file: bool,
    pub details: Result<FileDetails, String>,
    pub posters: FoundFiles,
    pub images: FoundFiles,
}

/// A media folder: missing, there but unreadable, or its entries.
pub enum Folder {
    Missing,
    Unreadable(String),
    Entries(Vec<DirEntry>),
}

/// The media folders, in the order of the media table.
pub struct Snapshot {
    pub videos: Folder,
    pub images: Folder,
    pub ppt: Folder,
}

impl Snapshot {
    /// The media folders, in the order of the media table.
    pub open spec fn folders(self) -> Seq<Folder> {
        seq![self.videos, self.images, self.ppt]
    }
}

/// Entries are sorted by the bytes of their names.
impl Ranked for DirEntry {
    open spec fn before(&self, other: &Self) -> bool {
        order::bytes_before(self.name_bytes@, other.name_bytes@)
    }

    proof fn before_is_asymmetric(a: &Self, b: &Self) {
        order::bytes_before_is_asymmetric(a.name_bytes@, b.name_bytes@);
    }

    proof fn before_is_weak(a: &Self, b: &Self, c: &Self) {
        order::bytes_before_is_weak(a.name_bytes@, b.name_bytes@, c.name_bytes@);
    }

    fn goes_before(&self, other: &Self) -> (res: bool) {
        bytes_go_before(&self.name_bytes, &other.name_bytes)
    }
}

/// A medium as it is listed.
pub struct MediaItem {
    pub name: String,
    pub display_name: String,
    pub kind: String,
    pub type_label: String,
    pub folder_label: String,
    pub url: String,
    pub size: u64,
    pub mime_type: String,
    pub poster_url: String,
    pub achievement: AchievementMeta,
}

/// A listed medium as sequences of characters.
pub struct MediaItemView {
    pub name: Seq<char>,
    pub display_name: Seq<char>,
    pub kind: Seq<char>,
    pub type_label: Seq<char>,
    pub folder_label: Seq<char>,
    pub url: Seq<char>,
    pub size: u64,
    pub mime_type: Seq<char>,
    pub poster_url: Seq<char>,
    pub achievement: MetaView,
}

impl View for MediaItem {
    type V = MediaItemView;

    open spec fn view(&self) -> MediaItemView {
        MediaItemView {
            name: self.name@,
            display_name: self.display_name@,
            kind: self.kind@,
            type_label: self.type_label@,
            folder_label: self.folder_label@,
            url: self.url@,
            size: self.size,
            mime_type: self.mime_type@,
            poster_url: self.poster_url@,
            achievement: self.achievement@,
        }
    }
}

impl DeepView for MediaItem {
    type V = MediaItemView;

    open spec fn deep_view(&self) -> MediaItemView {
        self.view()
    }
}

impl Clone for MediaItem {
    fn clone(&self) -> (res: MediaItem)
        ensures
            res@ == self@,
    {
        MediaItem {
            name: self.name.clone(),
            display_name: self.display_name.clone(),
            kind: self.kind.clone(),
            type_label: self.type_label.clone(),
            folder_label: self.folder_label.clone(),
            url: self.url.clone(),
            size: self.size,
            mime_type: self.mime_type.clone(),
            poster_url: self.poster_url.clone(),
            achievement: self.achievement.clone(),
        }
    }
}

/// The answer to a request for the list of media.
pub struct MediaPayload {
    pub items: Vec<MediaItem>,
}

/// The stem of an entry that is a video.
pub open spec fn video_stem(entry: DirEntry) -> Option<Seq<char>> {
    if entry.is_file && media::media_type_of(entry.path@.extension_or_empty()) == Some("video"@) {
        entry.path@.stem
    } else {
        None
    }
}

/// Whether a video with this stem is in the folder.
pub open spec fn is_video_stem(videos: Folder, stem: Seq<char>) -> bool {
    videos matches Folder::Entries(entries) && exists|i: int|
        0 <= i < entries@.len() && video_stem(#[trigger] entries@[i]) == Some(stem)
}

/// Whether an entry of a media folder is listed: it is a file with one of the
/// extensions of the folder, and not an image with the stem of a video, which is
/// a poster.
pub open spec fn is_listed(row: MediaRow, videos: Folder, entry: DirEntry) -> bool {
    &&& entry.is_file
    &&& row.3.contains(text::lowercase(entry.path@.extension_or_empty()))
    &&& !(row.0 == "image"@ && (entry.path@.stem matches Some(stem) && is_video_stem(videos, stem)))
}

/// The name of an entry, or the empty text.
pub open spec fn name_of(entry: DirEntry) -> Seq<char> {
    entry.path@.name_or_empty()
}

/// The description of a file, or a blank one.
pub open spec fn meta_of(meta: Map<Seq<char>, MetaView>, name: Seq<char>) -> MetaView {
    if meta.contains_key(name) {
        meta[name]
    } else {
        meta::blank_meta()
    }
}

/// The title under which an entry is shown: the one of its description, or its
/// stem where that one is blank.
pub open spec fn title_of(meta: Map<Seq<char>, MetaView>, entry: DirEntry) -> Seq<char> {
    let title = meta_of(meta, name_of(entry)).title;
    if text::trimmed(title).len() == 0 {
        entry.path@.stem_or_empty()
    } else {
        title
    }
}

/// How an entry is listed.
pub open spec fn item_of(
    meta: Map<Seq<char>, MetaView>,
    row: MediaRow,
    entry: DirEntry,
    size: u64,
) -> MediaItemView {
    MediaItemView {
        name: name_of(entry),
        display_name: title_of(meta, entry),
        kind: row.0,
        type_label: media::type_label_of(row.0),
        folder_label: row.2,
        url: entry.shown@,
        size,
        mime_type: media::mime_of(text::lowercase(entry.path@.extension_or_empty())),
        poster_url: if row.0 == "video"@ {
            poster::poster_of(
                names::stem_of(name_of(entry)),
                entry.posters.deep_view(),
                entry.images.deep_view(),
            )
        } else {
            Seq::empty()
        },
        achievement: MetaView {
            title: title_of(meta, entry),
            ..meta_of(meta, name_of(entry))
        },
    }
}

/// The time of the last change; zero where it is not known.
pub open spec fn time_of(details: FileDetails) -> u128 {
    match details.modified {
        Some(millis) => millis,
        None => 0,
    }
}

/// The listed entries of a folder with their times, or the reason why the
/// details of one of them, the first such, cannot be had.
pub open spec fn folder_items(
    meta: Map<Seq<char>, MetaView>,
    videos: Folder,
    row: MediaRow,
    entries: Seq<DirEntry>,
) -> Result<Seq<(MediaItemView, u128)>, Seq<char>>
    decreases entries.len(),
{
    if entries.len() == 0 {
        Ok(Seq::empty())
    } else {
        match folder_items(meta, videos, row, entries.drop_last()) {
            Ok(items) => if is_listed(row, videos, entries.last()) {
                match entries.last().details {
                    Ok(details) => Ok(
                        items.push((item_of(meta, row, entries.last(), details.size), time_of(details))),
                    ),
                    Err(reason) => Err(reason@),
                }
            } else {
                Ok(items)
            },
            Err(reason) => Err(reason),
        }
    }
}

/// The listed entries of the given folders with their times, folder by folder
/// and by name; or the first reason why they cannot be had.
pub open spec fn all_items(
    meta: Map<Seq<char>, MetaView>,
    videos: Folder,
    rows: Seq<MediaRow>,
    folders: Seq<Folder>,
) -> Result<Seq<(MediaItemView, u128)>, Seq<char>>
    decreases rows.len(),
{
    if rows.len() == 0 {
        Ok(Seq::empty())
    } else {
        match all_items(meta, videos, rows.drop_last(), folders.drop_last()) {
            Ok(items) => match folders.last() {
                Folder::Missing => Ok(items),
                Folder::Unreadable(reason) => Err(reason@),
                Folder::Entries(entries) => match folder_items(
                    meta,
                    videos,
                    rows.last(),
                    order::arranged(entries@, entries@),
                ) {
                    Ok(more) => Ok(items + more),
                    Err(reason) => Err(reason),
                },
            },
            Err(reason) => Err(reason),
        }
    }
}

/// The times of items, as keys to sort by.
pub open spec fn times_of(items: Seq<(MediaItemView, u128)>) -> Seq<LatestFirst> {
    items.map_values(|item: (MediaItemView, u128)| LatestFirst { millis: item.1 })
}

/// Items newest first; those of the same time keep their order.
pub open spec fn newest_first(items: Seq<(MediaItemView, u128)>) -> Seq<MediaItemView> {
    order::arranged(times_of(items), items.map_values(|item: (MediaItemView, u128)| item.0))
}

/// The list of media.
pub open spec fn listing(
    meta: Map<Seq<char>, MetaView>,
    snapshot: Snapshot,
) -> Result<Seq<MediaItemView>, Seq<char>> {
    match all_items(meta, snapshot.videos, media::media_table(), snapshot.folders()) {
        Ok(items) => Ok(newest_first(items)),
        Err(reason) => Err(reason),
    }
}

/// The stems of the videos in a folder, each once. A folder that is missing or
/// unreadable has none.
pub fn collect_video_stems(videos: &Folder) -> (res: Vec<String>)
    ensures
        forall|stem: Seq<char>| #[trigger] res.deep_view().contains(stem) <==> is_video_stem(*videos, stem),
        res.deep_view().no_duplicates(),
{
    let mut stems: Vec<String> = Vec::new();
    let entries = match videos {
        Folder::Entries(entries) => entries,
        _ => {
            return stems;
        },
    };
    let mut i: usize = 0;
    while i < entries.len()
        invariant
            i <= entries@.len(),
            stems.deep_view().no_duplicates(),
            forall|j: int|
                0 <= j < i ==> (video_stem(#[trigger] entries@[j]) matches Some(stem) ==> stems.deep_view().contains(stem)),
            forall|k: int|
                0 <= k < stems.deep_view().len() ==> exists|j: int|
                    0 <= j < i && video_stem(#[trigger] entries@[j]) == Some(#[trigger] stems.deep_view()[k]),
        decreases entries@.len() - i,
    {
        let ghost before = stems.deep_view();
        let entry = &entries[i];
        if entry.is_file {
            let kind = media_type_for_extension(entry.path.extension_or_empty().as_str());
            let is_video = match kind {
                Some(kind) => same_text(kind, "video"),
                None => false,
            };
            if is_video {
                if let Some(stem) = &entry.path.stem {
                    assert(video_stem(entries@[i as int]) == Some(stem@));
                    if !contains_text(&stems, stem.as_str()) {
                        stems.push(stem.clone());
                        assert(stems.deep_view() == before.push(stem@));
                        assert(stems.deep_view()[before.len() as int] == stem@);
                    }
                }
            }
        }
        proof {
            assert forall|j: int| 0 <= j < i + 1 implies (video_stem(#[trigger] entries@[j]) matches Some(stem)
                ==> stems.deep_view().contains(stem)) by {
                if video_stem(entries@[j]) is Some && j < i {
                    let stem = video_stem(entries@[j]).unwrap();
                    let k = choose|k: int| 0 <= k < before.len() && before[k] == stem;
                    assert(stems.deep_view()[k] == stem);
                }
            }
            assert forall|k: int| 0 <= k < stems.deep_view().len() implies exists|j: int|
                0 <= j < i + 1 && video_stem(#[trigger] entries@[j]) == Some(#[trigger] stems.deep_view()[k]) by {
                if k < before.len() {
                    assert(before[k] == stems.deep_view()[k]);
                } else {
                    assert(video_stem(entries@[i as int]) == Some(stems.deep_view()[k]));
                }
            }
        }
        i += 1;
    }
    stems
}

/// Whether an entry of a media folder is listed, given the stems of the videos.
fn entry_is_listed(
    kind: &str,
    extensions: &Vec<&'static str>,
    stems: &Vec<String>,
    entry: &DirEntry,
    Ghost(videos): Ghost<Folder>,
) -> (res: bool)
    requires
        forall|stem: Seq<char>| #[trigger] stems.deep_view().contains(stem) <==> is_video_stem(videos, stem),
    ensures
        forall|folder: Seq<char>, label: Seq<char>|
            res == #[trigger] is_listed((kind@, folder, label, extensions.deep_view()), videos, *entry),
{
    if !entry.is_file {
        return false;
    }
    let extension = to_lowercase(entry.path.extension_or_empty().as_str());
    if !contains_str(extensions, extension.as_str()) {
        return false;
    }
    if same_text(kind, "image") {
        if let Some(stem) = &entry.path.stem {
            if contains_text(stems, stem.as_str()) {
                return false;
            }
        }
    }
    true
}

/// How an entry is listed.
fn make_item(
    meta: &MetaStore,
    row: &(&'static str, &'static str, &'static str, Vec<&'static str>),
    entry: &DirEntry,
    size: u64,
) -> (res: MediaItem)
    ensures
        res@ == item_of(meta@, row.deep_view(), *entry, size),
{
    let kind = row.0;
    let name = match &entry.path.name {
        Some(name) => name.clone(),
        None => String::new(),
    };
    let achievement = meta.get_or_default(name.as_str());
    let title = if is_blank(achievement.title.as_str()) {
        entry.path.stem_or_empty()
    } else {
        achievement.title.clone()
    };
    let poster_url = if same_text(kind, "video") {
        let name_path = FilePath::from_name(Some(name.clone()));
        find_poster(name_path.stem_or_empty().as_str(), &entry.posters, &entry.images)
    } else {
        String::new()
    };
    MediaItem {
        name,
        display_name: title.clone(),
        kind: kind.to_owned(),
        type_label: type_label(kind).to_owned(),
        folder_label: row.2.to_owned(),
        url: entry.shown.clone(),
        size,
        mime_type: mime_for_path(&entry.path),
        poster_url,
        achievement: AchievementMeta {
            title,
            owner: achievement.owner,
            patent_no: achievement.patent_no,
            description: achievement.description,
            created_at: achievement.created_at,
        },
    }
}

/// Items with their times.
pub open spec fn timed_view(items: Seq<(MediaItem, u128)>) -> Seq<(MediaItemView, u128)> {
    items.map_values(|item: (MediaItem, u128)| (item.0@, item.1))
}

/// The listed entries of a folder, in the order of their names, with their times.
fn list_folder(
    meta: &MetaStore,
    Ghost(videos): Ghost<Folder>,
    stems: &Vec<String>,
    row: &(&'static str, &'static str, &'static str, Vec<&'static str>),
    entries: &Vec<DirEntry>,
) -> (res: Result<Vec<(MediaItem, u128)>, String>)
    requires
        forall|stem: Seq<char>| #[trigger] stems.deep_view().contains(stem) <==> is_video_stem(videos, stem),
    ensures
        match res {
            Ok(items) => folder_items(meta@, videos, row.deep_view(), order::arranged(entries@, entries@)) == Ok::<
                Seq<(MediaItemView, u128)>,
                Seq<char>,
            >(timed_view(items@)),
            Err(reason) => folder_items(meta@, videos, row.deep_view(), order::arranged(entries@, entries@))
                == Err::<Seq<(MediaItemView, u128)>, Seq<char>>(reason@),
        },
{
    let places = stable_order(entries);
    let ghost all = order::arranged(entries@, entries@);
    let ghost spec_row = row.deep_view();
    let mut items: Vec<(MediaItem, u128)> = Vec::new();
    let mut n: usize = 0;
    proof {
        assert(all.take(0) == Seq::<DirEntry>::empty());
        assert(timed_view(items@) == Seq::<(MediaItemView, u128)>::empty());
    }
    while n < places.len()
        invariant
            n <= places@.len(),
            spec_row == row.deep_view(),
            all == order::arranged(entries@, entries@),
            places@.map_values(|place: usize| place as int) == order::order_of(entries@),
            order::is_stable_order(entries@, places@.map_values(|place: usize| place as int)),
            forall|stem: Seq<char>| #[trigger] stems.deep_view().contains(stem) <==> is_video_stem(videos, stem),
            folder_items(meta@, videos, spec_row, all.take(n as int)) == Ok::<
                Seq<(MediaItemView, u128)>,
                Seq<char>,
            >(timed_view(items@)),
        decreases places@.len() - n,
    {
        let ghost before = timed_view(items@);
        proof {
            let order = places@.map_values(|place: usize| place as int);
            assert(order[n as int] == places@[n as int]);
            assert(all[n as int] == entries@[places@[n as int] as int]);
            assert(all.take(n + 1).drop_last() == all.take(n as int));
            assert(all.take(n + 1).last() == all[n as int]);
        }
        let entry = &entries[places[n]];
        if entry_is_listed(row.0, &row.3, stems, entry, Ghost(videos)) {
            assert(is_listed(spec_row, videos, *entry));
            match &entry.details {
                Ok(details) => {
                    let time: u128 = match details.modified {
                        Some(millis) => millis,
                        None => 0,
                    };
                    items.push((make_item(meta, row, entry, details.size), time));
                    assert(timed_view(items@) == before.push(
                        (item_of(meta@, spec_row, *entry, details.size), time_of(*details)),
                    ));
                },
                Err(reason) => {
                    proof {
                        lemma_first_error(meta@, videos, spec_row, all, n + 1);
                    }
                    return Err(reason.clone());
                },
            }
        } else {
            assert(!is_listed(spec_row, videos, *entry));
        }
        n += 1;
    }
    assert(all.take(n as int) == all);
    Ok(items)
}

/// What goes wrong among the first entries goes wrong among all of them.
proof fn lemma_first_error(
    meta: Map<Seq<char>, MetaView>,
    videos: Folder,
    row: MediaRow,
    entries: Seq<DirEntry>,
    n: int,
)
    requires
        0 <= n <= entries.len(),
        folder_items(meta, videos, row, entries.take(n)) is Err,
    ensures
        folder_items(meta, videos, row, entries) == folder_items(meta, videos, row, entries.take(n)),
    decreases entries.len() - n,
{
    if n == entries.len() {
        assert(entries.take(n) == entries);
    } else {
        assert(entries.take(n + 1).drop_last() == entries.take(n));
        lemma_first_error(meta, videos, row, entries, n + 1);
    }
}

/// What goes wrong in the first folders goes wrong in all of them.
proof fn lemma_first_folder_error(
    meta: Map<Seq<char>, MetaView>,
    videos: Folder,
    rows: Seq<MediaRow>,
    folders: Seq<Folder>,
    n: int,
)
    requires
        0 <= n <= rows.len(),
        rows.len() == folders.len(),
        all_items(meta, videos, rows.take(n), folders.take(n)) is Err,
    ensures
        all_items(meta, videos, rows, folders) == all_items(meta, videos, rows.take(n), folders.take(n)),
    decreases rows.len() - n,
{
    if n == rows.len() {
        assert(rows.take(n) == rows && folders.take(n) == folders);
    } else {
        assert(rows.take(n + 1).drop_last() == rows.take(n));
        assert(folders.take(n + 1).drop_last() == folders.take(n));
        lemma_first_folder_error(meta, videos, rows, folders, n + 1);
    }
}

/// The items of all folders with their times, folder by folder and by name.
fn list_folders(meta: &MetaStore, snapshot: &Snapshot) -> (res: Result<Vec<(MediaItem, u128)>, String>)
    ensures
        match res {
            Ok(items) => all_items(meta@, snapshot.videos, media::media_table(), snapshot.folders()) == Ok::<
                Seq<(MediaItemView, u128)>,
                Seq<char>,
            >(timed_view(items@)),
            Err(reason) => all_items(meta@, snapshot.videos, media::media_table(), snapshot.folders()) == Err::<
                Seq<(MediaItemView, u128)>,
                Seq<char>,
            >(reason@),
        },
{
    let rows = media_types();
    let stems = collect_video_stems(&snapshot.videos);
    let ghost table = media::media_table();
    let ghost folders = snapshot.folders();
    let mut items: Vec<(MediaItem, u128)> = Vec::new();
    let mut n: usize = 0;
    proof {
        assert(table.take(0) == Seq::<MediaRow>::empty());
        assert(timed_view(items@) == Seq::<(MediaItemView, u128)>::empty());
    }
    while n < rows.len()
        invariant
            n <= rows@.len(),
            rows.deep_view() == table,
            table == media::media_table(),
            folders == snapshot.folders(),
            forall|stem: Seq<char>| #[trigger] stems.deep_view().contains(stem) <==> is_video_stem(
                snapshot.videos,
                stem,
            ),
            all_items(meta@, snapshot.videos, table.take(n as int), folders.take(n as int)) == Ok::<
                Seq<(MediaItemView, u128)>,
                Seq<char>,
            >(timed_view(items@)),
        decreases rows@.len() - n,
    {
        proof {
            assert(table[n as int] == rows@[n as int].deep_view());
            assert(table.take(n + 1).drop_last() == table.take(n as int));
            assert(folders.take(n + 1).drop_last() == folders.take(n as int));
            assert(table.take(n + 1).last() == table[n as int]);
            assert(folders.take(n + 1).last() == folders[n as int]);
        }
        let folder = if n == 0 {
            &snapshot.videos
        } else if n == 1 {
            &snapshot.images
        } else {
            &snapshot.ppt
        };
        assert(*folder == folders[n as int]);
        match folder {
            Folder::Missing => {},
            Folder::Unreadable(reason) => {
                proof {
                    lemma_first_folder_error(meta@, snapshot.videos, table, folders, n + 1);
                }
                return Err(reason.clone());
            },
            Folder::Entries(entries) => match list_folder(
                meta,
                Ghost(snapshot.videos),
                &stems,
                &rows[n],
                entries,
            ) {
                Ok(more) => {
                    let mut more = more;
                    let ghost before = items@;
                    let ghost added = more@;
                    items.append(&mut more);
                    assert(timed_view(before + added) == timed_view(before) + timed_view(added));
                },
                Err(reason) => {
                    proof {
                        lemma_first_folder_error(meta@, snapshot.videos, table, folders, n + 1);
                    }
                    return Err(reason);
                },
            },
        }
        n += 1;
    }
    assert(table.take(n as int) == table && folders.take(n as int) == folders);
    Ok(items)
}

/// The list of media: the supported files of the media folders without the
/// posters among the images, newest first. Where a folder or the details of a
/// file cannot be read, the reason for the first of them.
pub fn list_media(meta: &MetaStore, snapshot: &Snapshot) -> (res: Result<MediaPayload, String>)
    ensures
        match res {
            Ok(payload) => listing(meta@, *snapshot) == Ok::<Seq<MediaItemView>, Seq<char>>(
                payload.items.deep_view(),
            ),
            Err(reason) => listing(meta@, *snapshot) == Err::<Seq<MediaItemView>, Seq<char>>(reason@),
        },
{
    let timed = match list_folders(meta, snapshot) {
        Ok(timed) => timed,
        Err(reason) => {
            return Err(reason);
        },
    };
    let ghost all = timed_view(timed@);
    let mut keys: Vec<LatestFirst> = Vec::new();
    let mut i: usize = 0;
    while i < timed.len()
        invariant
            i <= timed@.len(),
            all == timed_view(timed@),
            keys@ == times_of(all.take(i as int)),
        decreases timed@.len() - i,
    {
        keys.push(LatestFirst { millis: timed[i].1 });
        assert(keys@ == times_of(all.take(i + 1)));
        i += 1;
    }
    assert(all.take(i as int) == all);
    let places = stable_order(&keys);
    let ghost order = places@.map_values(|place: usize| place as int);
    let mut items: Vec<MediaItem> = Vec::new();
    let mut n: usize = 0;
    while n < places.len()
        invariant
            n <= places@.len(),
            all == timed_view(timed@),
            order == places@.map_values(|place: usize| place as int),
            order::is_stable_order(times_of(all), order),
            items@.len() == n,
            forall|k: int| 0 <= k < n ==> (#[trigger] items@[k])@ == all[order[k]].0,
        decreases places@.len() - n,
    {
        assert(order[n as int] == places@[n as int]);
        items.push(timed[places[n]].0.clone());
        n += 1;
    }
    assert(items.deep_view() == newest_first(all));
    Ok(MediaPayload { items })
}

/// Whether `item` is how an entry of a media folder is listed, with its time.
pub open spec fn shows(
    meta: Map<Seq<char>, MetaView>,
    videos: Folder,
    row: MediaRow,
    entry: DirEntry,
    item: (MediaItemView, u128),
) -> bool {
    &&& is_listed(row, videos, entry)
    &&& entry.details matches Ok(details) && item == (item_of(meta, row, entry, details.size), time_of(details))
}

/// The list holds every item, newest first: an item is followed only by older
/// ones, and by those of the same time that came after it.
pub proof fn list_is_newest_first(items: Seq<(MediaItemView, u128)>)
    ensures
        newest_first(items).len() == items.len(),
        ({
            let order = order::order_of(times_of(items));
            &&& order.no_duplicates()
            &&& forall|i: int|
                0 <= i < items.len() ==> 0 <= #[trigger] order[i] < items.len() && newest_first(items)[i]
                    == items[order[i]].0
            &&& forall|i: int, j: int|
                0 <= i < j < items.len() ==> items[#[trigger] order[i]].1 > items[#[trigger] order[j]].1 || (
                items[order[i]].1 == items[order[j]].1 && order[i] < order[j])
        }),
{
    order::stable_order_exists(times_of(items));
    let order = order::order_of(times_of(items));
    assert forall|i: int, j: int| 0 <= i < j < items.len() implies items[#[trigger] order[i]].1
        > items[#[trigger] order[j]].1 || (items[order[i]].1 == items[order[j]].1 && order[i] < order[j]) by {
        assert(order::precedes(times_of(items), order[i], order[j]));
    }
}

proof fn lemma_folder_items_come_from_files(
    meta: Map<Seq<char>, MetaView>,
    videos: Folder,
    row: MediaRow,
    entries: Seq<DirEntry>,
)
    requires
        folder_items(meta, videos, row, entries) is Ok,
    ensures
        forall|k: int|
            0 <= k < folder_items(meta, videos, row, entries)->Ok_0.len() ==> exists|e: int|
                0 <= e < entries.len() && shows(
                    meta,
                    videos,
                    row,
                    #[trigger] entries[e],
                    #[trigger] folder_items(meta, videos, row, entries)->Ok_0[k],
                ),
    decreases entries.len(),
{
    if entries.len() > 0 {
        let rest = entries.drop_last();
        lemma_folder_items_come_from_files(meta, videos, row, rest);
        let items = folder_items(meta, videos, row, entries)->Ok_0;
        let before = folder_items(meta, videos, row, rest)->Ok_0;
        assert forall|k: int| 0 <= k < items.len() implies exists|e: int|
            0 <= e < entries.len() && shows(meta, videos, row, #[trigger] entries[e], #[trigger] items[k]) by {
            if k < before.len() {
                assert(items[k] == before[k]);
                let e = choose|e: int|
                    0 <= e < rest.len() && shows(meta, videos, row, #[trigger] rest[e], before[k]);
                assert(entries[e] == rest[e]);
            } else {
                assert(shows(meta, videos, row, entries[entries.len() - 1], items[k]));
            }
        }
    }
}

proof fn lemma_folder_files_have_items(
    meta: Map<Seq<char>, MetaView>,
    videos: Folder,
    row: MediaRow,
    entries: Seq<DirEntry>,
    e: int,
)
    requires
        folder_items(meta, videos, row, entries) is Ok,
        0 <= e < entries.len(),
        is_listed(row, videos, entries[e]),
    ensures
        exists|k: int|
            0 <= k < folder_items(meta, videos, row, entries)->Ok_0.len() && shows(
                meta,
                videos,
                row,
                entries[e],
                #[trigger] folder_items(meta, videos, row, entries)->Ok_0[k],
            ),
    decreases entries.len(),
{
    let rest = entries.drop_last();
    let items = folder_items(meta, videos, row, entries)->Ok_0;
    let before = folder_items(meta, videos, row, rest)->Ok_0;
    if e == entries.len() - 1 {
        assert(shows(meta, videos, row, entries[e], items[before.len() as int]));
    } else {
        lemma_folder_files_have_items(meta, videos, row, rest, e);
        let k = choose|k: int|
            0 <= k < before.len() && shows(meta, videos, row, rest[e], #[trigger] before[k]);
        assert(items[k] == before[k]);
    }
}

/// Sorting entries neither adds nor loses one.
proof fn lemma_arranged(entries: Seq<DirEntry>, entry: DirEntry)
    ensures
        order::arranged(entries, entries).contains(entry) <==> entries.contains(entry),
{
    order::stable_order_exists(entries);
    let order = order::order_of(entries);
    let sorted = order::arranged(entries, entries);
    if sorted.contains(entry) {
        let i = choose|i: int| 0 <= i < sorted.len() && sorted[i] == entry;
        assert(entries[order[i]] == entry);
    }
    if entries.contains(entry) {
        let place = choose|place: int| 0 <= place < entries.len() && entries[place] == entry;
        order::stable_order_is_complete(entries, order, place);
        let i = choose|i: int| 0 <= i < order.len() && order[i] == place;
        assert(sorted[i] == entry);
    }
}

/// Whether `entry` is in a folder.
pub open spec fn folder_holds(folder: Folder, entry: DirEntry) -> bool {
    folder matches Folder::Entries(entries) && entries@.contains(entry)
}

/// Whether `item` stands for a listed file in one of the folders.
pub open spec fn has_file(
    meta: Map<Seq<char>, MetaView>,
    videos: Folder,
    rows: Seq<MediaRow>,
    folders: Seq<Folder>,
    item: (MediaItemView, u128),
) -> bool {
    exists|r: int, entry: DirEntry|
        {
            &&& 0 <= r < rows.len()
            &&& #[trigger] folder_holds(folders[r], entry)
            &&& shows(meta, videos, rows[r], entry, item)
        }
}

/// Every listed item stands for a supported file in one of the folders, which is
/// not an image with the stem of a video.
pub proof fn items_come_from_files(
    meta: Map<Seq<char>, MetaView>,
    videos: Folder,
    rows: Seq<MediaRow>,
    folders: Seq<Folder>,
    k: int,
)
    requires
        rows.len() == folders.len(),
        all_items(meta, videos, rows, folders) is Ok,
        0 <= k < all_items(meta, videos, rows, folders)->Ok_0.len(),
    ensures
        has_file(meta, videos, rows, folders, all_items(meta, videos, rows, folders)->Ok_0[k]),
    decreases rows.len(),
{
    let last = rows.len() - 1;
    let items = all_items(meta, videos, rows, folders)->Ok_0;
    let before = all_items(meta, videos, rows.drop_last(), folders.drop_last())->Ok_0;
    if k < before.len() {
        items_come_from_files(meta, videos, rows.drop_last(), folders.drop_last(), k);
        assert(items[k] == before[k]);
        let (r, entry) = choose|r: int, entry: DirEntry|
            {
                &&& 0 <= r < rows.drop_last().len()
                &&& #[trigger] folder_holds(folders.drop_last()[r], entry)
                &&& shows(meta, videos, rows.drop_last()[r], entry, before[k])
            };
        assert(folder_holds(folders[r], entry));
    } else {
        let entries = folders[last]->Entries_0@;
        let sorted = order::arranged(entries, entries);
        let more = folder_items(meta, videos, rows[last], sorted)->Ok_0;
        lemma_folder_items_come_from_files(meta, videos, rows[last], sorted);
        assert(items[k] == more[k - before.len()]);
        let e = choose|e: int|
            0 <= e < sorted.len() && shows(
                meta,
                videos,
                rows[last],
                #[trigger] sorted[e],
                more[k - before.len()],
            );
        lemma_arranged(entries, sorted[e]);
        assert(sorted.contains(sorted[e]));
        assert(folder_holds(folders[last], sorted[e]));
    }
}

/// Every supported file in one of the folders is listed, unless it is an image
/// with the stem of a video.
pub proof fn files_have_items(
    meta: Map<Seq<char>, MetaView>,
    videos: Folder,
    rows: Seq<MediaRow>,
    folders: Seq<Folder>,
    r: int,
    entry: DirEntry,
)
    requires
        rows.len() == folders.len(),
        all_items(meta, videos, rows, folders) is Ok,
        0 <= r < rows.len(),
        folder_holds(folders[r], entry),
        is_listed(rows[r], videos, entry),
    ensures
        exists|k: int|
            0 <= k < all_items(meta, videos, rows, folders)->Ok_0.len() && shows(
                meta,
                videos,
                rows[r],
                entry,
                #[trigger] all_items(meta, videos, rows, folders)->Ok_0[k],
            ),
    decreases rows.len(),
{
    let items = all_items(meta, videos, rows, folders)->Ok_0;
    let before = all_items(meta, videos, rows.drop_last(), folders.drop_last())->Ok_0;
    if r == rows.len() - 1 {
        let entries = folders[r]->Entries_0@;
        let sorted = order::arranged(entries, entries);
        let more = folder_items(meta, videos, rows[r], sorted)->Ok_0;
        lemma_arranged(entries, entry);
        let e = choose|e: int| 0 <= e < sorted.len() && sorted[e] == entry;
        lemma_folder_files_have_items(meta, videos, rows[r], sorted, e);
        let k = choose|k: int|
            0 <= k < more.len() && shows(meta, videos, rows[r], sorted[e], #[trigger] more[k]);
        assert(items[before.len() + k] == more[k]);
    } else {
        files_have_items(meta, videos, rows.drop_last(), folders.drop_last(), r, entry);
        let k = choose|k: int|
            0 <= k < before.len() && shows(meta, videos, rows.drop_last()[r], entry, #[trigger] before[k]);
        if folders.last() is Entries {
            assert(items[k] == before[k]);
        }
    }
}

/// The places of the listed entries of a folder, in the order of their names.
pub open spec fn places_in_folder(videos: Folder, row: MediaRow, entries: Seq<DirEntry>) -> Seq<int> {
    order::order_of(entries).filter(|place: int| is_listed(row, videos, entries[place]))
}

/// The places of the listed entries of the given folders: the number of the folder
/// and the place in it.
pub open spec fn places_in_folders(videos: Folder, rows: Seq<MediaRow>, folders: Seq<Folder>) -> Seq<(int, int)>
    decreases rows.len(),
{
    if rows.len() == 0 {
        Seq::empty()
    } else {
        places_in_folders(videos, rows.drop_last(), folders.drop_last()) + match folders.last() {
            Folder::Entries(entries) => places_in_folder(videos, rows.last(), entries@).map_values(
                |place: int| (rows.len() - 1, place),
            ),
            _ => Seq::empty(),
        }
    }
}

/// The place of the file behind each item of the list.
pub open spec fn media_places(meta: Map<Seq<char>, MetaView>, snapshot: Snapshot) -> Seq<(int, int)> {
    let table = media::media_table();
    let items = all_items(meta, snapshot.videos, table, snapshot.folders())->Ok_0;
    let places = places_in_folders(snapshot.videos, table, snapshot.folders());
    order::order_of(times_of(items)).map_values(|k: int| places[k])
}

proof fn lemma_filter<A>(all: Seq<A>, keep: spec_fn(A) -> bool, item: A)
    ensures
        all.filter(keep).contains(item) <==> all.contains(item) && keep(item),
        all.no_duplicates() ==> all.filter(keep).no_duplicates(),
    decreases all.len(),
{
    reveal(Seq::filter);
    if all.len() > 0 {
        let rest = all.drop_last();
        let kept = rest.filter(keep);
        let last = all[all.len() - 1];
        lemma_filter(rest, keep, item);
        if all.contains(item) {
            let i = choose|i: int| 0 <= i < all.len() && all[i] == item;
            if i < rest.len() {
                assert(rest[i] == item);
            } else if keep(item) {
                assert(all.filter(keep)[kept.len() as int] == item);
            }
        }
        if rest.contains(item) {
            let i = choose|i: int| 0 <= i < rest.len() && rest[i] == item;
            assert(all[i] == item);
        }
        if kept.contains(item) {
            let i = choose|i: int| 0 <= i < kept.len() && kept[i] == item;
            assert(all.filter(keep)[i] == item);
        }
        if all.filter(keep).contains(item) {
            let i = choose|i: int| 0 <= i < all.filter(keep).len() && all.filter(keep)[i] == item;
            if i < kept.len() {
                assert(kept[i] == item);
            } else {
                assert(all[all.len() - 1] == item);
            }
        }
        if all.no_duplicates() && keep(last) {
            lemma_filter(rest, keep, last);
            assert(!rest.contains(last));
            assert forall|i: int| 0 <= i < kept.len() implies #[trigger] kept[i] != last by {
                assert(kept.contains(kept[i]));
            }
        }
    }
}

/// Filtering keeps the order of places.
proof fn lemma_filter_keeps_order(entries: Seq<DirEntry>, all: Seq<int>, keep: spec_fn(int) -> bool)
    requires
        forall|i: int, j: int|
            0 <= i < j < all.len() ==> order::precedes(entries, #[trigger] all[i], #[trigger] all[j]),
    ensures
        forall|i: int, j: int|
            0 <= i < j < all.filter(keep).len() ==> order::precedes(
                entries,
                #[trigger] all.filter(keep)[i],
                #[trigger] all.filter(keep)[j],
            ),
    decreases all.len(),
{
    reveal(Seq::filter);
    if all.len() > 0 {
        let rest = all.drop_last();
        let kept = rest.filter(keep);
        assert forall|i: int, j: int| 0 <= i < j < rest.len() implies order::precedes(
            entries,
            #[trigger] rest[i],
            #[trigger] rest[j],
        ) by {
            assert(order::precedes(entries, all[i], all[j]));
        }
        lemma_filter_keeps_order(entries, rest, keep);
        assert forall|i: int, j: int| 0 <= i < j < all.filter(keep).len() implies order::precedes(
            entries,
            #[trigger] all.filter(keep)[i],
            #[trigger] all.filter(keep)[j],
        ) by {
            assert(all.filter(keep)[i] == kept[i]);
            if j < kept.len() {
                assert(all.filter(keep)[j] == kept[j]);
            } else {
                lemma_filter(rest, keep, kept[i]);
                assert(kept.contains(kept[i]));
                let m = choose|m: int| 0 <= m < rest.len() && rest[m] == kept[i];
                assert(order::precedes(entries, all[m], all[all.len() - 1]));
            }
        }
    }
}

/// The items of a folder, one for each listed place.
proof fn lemma_folder_places(
    meta: Map<Seq<char>, MetaView>,
    videos: Folder,
    row: MediaRow,
    entries: Seq<DirEntry>,
    order: Seq<int>,
)
    requires
        folder_items(meta, videos, row, order.map_values(|place: int| entries[place])) is Ok,
    ensures
        ({
            let items = folder_items(meta, videos, row, order.map_values(|place: int| entries[place]))->Ok_0;
            let places = order.filter(|place: int| is_listed(row, videos, entries[place]));
            &&& items.len() == places.len()
            &&& forall|k: int|
                0 <= k < items.len() ==> shows(meta, videos, row, entries[#[trigger] places[k]], items[k])
        }),
    decreases order.len(),
{
    reveal(Seq::filter);
    let sorted = order.map_values(|place: int| entries[place]);
    let keep = |place: int| is_listed(row, videos, entries[place]);
    if order.len() > 0 {
        let rest = order.drop_last();
        assert(sorted.drop_last() == rest.map_values(|place: int| entries[place]));
        lemma_folder_places(meta, videos, row, entries, rest);
        let items = folder_items(meta, videos, row, sorted)->Ok_0;
        let before = folder_items(meta, videos, row, sorted.drop_last())->Ok_0;
        let places = order.filter(keep);
        let kept = rest.filter(keep);
        assert(sorted.last() == entries[order.last()]);
        assert forall|k: int| 0 <= k < items.len() implies shows(
            meta,
            videos,
            row,
            entries[#[trigger] places[k]],
            items[k],
        ) by {
            if k < kept.len() {
                assert(places[k] == kept[k]);
                assert(items[k] == before[k]);
            }
        }
    }
}

/// Whether `places` are the places behind `items`, folder by folder and by name.
spec fn places_fit(
    meta: Map<Seq<char>, MetaView>,
    videos: Folder,
    rows: Seq<MediaRow>,
    folders: Seq<Folder>,
    places: Seq<(int, int)>,
    items: Seq<(MediaItemView, u128)>,
) -> bool {
    &&& places.len() == items.len()
    &&& places.no_duplicates()
    &&& forall|k: int|
        0 <= k < places.len() ==> {
            let (f, e) = #[trigger] places[k];
            &&& 0 <= f < rows.len()
            &&& folders[f] is Entries
            &&& 0 <= e < folders[f]->Entries_0@.len()
            &&& shows(meta, videos, rows[f], folders[f]->Entries_0@[e], items[k])
        }
    &&& forall|i: int, j: int|
        0 <= i < j < places.len() ==> (#[trigger] places[i]).0 < (#[trigger] places[j]).0 || (places[i].0 == places[j].0
            && order::precedes(folders[places[i].0]->Entries_0@, places[i].1, places[j].1))
}

proof fn lemma_places(
    meta: Map<Seq<char>, MetaView>,
    videos: Folder,
    rows: Seq<MediaRow>,
    folders: Seq<Folder>,
)
    requires
        rows.len() == folders.len(),
        all_items(meta, videos, rows, folders) is Ok,
    ensures
        places_fit(
            meta,
            videos,
            rows,
            folders,
            places_in_folders(videos, rows, folders),
            all_items(meta, videos, rows, folders)->Ok_0,
        ),
    decreases rows.len(),
{
    if rows.len() > 0 {
        let last = rows.len() - 1;
        let places = places_in_folders(videos, rows, folders);
        let items = all_items(meta, videos, rows, folders)->Ok_0;
        let old_places = places_in_folders(videos, rows.drop_last(), folders.drop_last());
        let old_items = all_items(meta, videos, rows.drop_last(), folders.drop_last())->Ok_0;
        lemma_places(meta, videos, rows.drop_last(), folders.drop_last());
        let n = old_places.len() as int;
        assert forall|k: int| 0 <= k < n implies {
            let (f, e) = #[trigger] places[k];
            &&& places[k] == old_places[k]
            &&& items[k] == old_items[k]
            &&& 0 <= f < last
            &&& folders[f] == folders.drop_last()[f]
            &&& folders[f] is Entries
            &&& 0 <= e < folders[f]->Entries_0@.len()
            &&& shows(meta, videos, rows[f], folders[f]->Entries_0@[e], items[k])
        } by {
            assert(places[k] == old_places[k]);
        }
        if folders.last() is Entries {
            let entries = folders[last]->Entries_0@;
            let order = order::order_of(entries);
            let keep = |place: int| is_listed(rows[last], videos, entries[place]);
            let more = places_in_folder(videos, rows[last], entries);
            order::stable_order_exists(entries);
            assert(order::arranged(entries, entries) == order.map_values(|place: int| entries[place]));
            lemma_folder_places(meta, videos, rows[last], entries, order);
            assert(more == order.filter(keep));
            lemma_filter(order, keep, 0);
            lemma_filter_keeps_order(entries, order, keep);
            assert forall|k: int| n <= k < places.len() implies {
                let (f, e) = #[trigger] places[k];
                &&& f == last
                &&& e == more[k - n]
                &&& 0 <= e < entries.len()
                &&& shows(meta, videos, rows[last], entries[e], items[k])
            } by {
                let e = more[k - n];
                assert(more.contains(e));
                lemma_filter(order, keep, e);
                let m = choose|m: int| 0 <= m < order.len() && order[m] == e;
                assert(0 <= order[m] < entries.len());
            }
            assert forall|i: int, j: int| 0 <= i < j < places.len() implies (#[trigger] places[i]).0 < (
            #[trigger] places[j]).0 || (places[i].0 == places[j].0 && order::precedes(
                folders[places[i].0]->Entries_0@,
                places[i].1,
                places[j].1,
            )) by {
                if j < n {
                    assert(places[i] == old_places[i] && places[j] == old_places[j]);
                } else if i >= n {
                    assert(order::precedes(entries, more[i - n], more[j - n]));
                }
            }
            assert forall|i: int, j: int| 0 <= i < places.len() && 0 <= j < places.len() && i != j implies places[i]
                != places[j] by {
                if i < n && j < n {
                    assert(places[i] == old_places[i] && places[j] == old_places[j]);
                } else if i >= n && j >= n {
                    assert(more[i - n] != more[j - n]);
                }
            }
        } else {
            assert(places == old_places);
            assert(items == old_items);
        }
    }
}

proof fn lemma_place_is_listed(videos: Folder, rows: Seq<MediaRow>, folders: Seq<Folder>, f: int, e: int)
    requires
        rows.len() == folders.len(),
    ensures
        places_in_folders(videos, rows, folders).contains((f, e)) <==> {
            &&& 0 <= f < rows.len()
            &&& folders[f] is Entries
            &&& 0 <= e < folders[f]->Entries_0@.len()
            &&& is_listed(rows[f], videos, folders[f]->Entries_0@[e])
        },
    decreases rows.len(),
{
    if rows.len() > 0 {
        let last = rows.len() - 1;
        let places = places_in_folders(videos, rows, folders);
        let old_places = places_in_folders(videos, rows.drop_last(), folders.drop_last());
        lemma_place_is_listed(videos, rows.drop_last(), folders.drop_last(), f, e);
        let added = match folders.last() {
            Folder::Entries(entries) => places_in_folder(videos, rows.last(), entries@).map_values(
                |place: int| (rows.len() - 1, place),
            ),
            _ => Seq::<(int, int)>::empty(),
        };
        assert(places == old_places + added);
        assert(places.contains((f, e)) <==> old_places.contains((f, e)) || added.contains((f, e))) by {
            if places.contains((f, e)) {
                let i = choose|i: int| 0 <= i < places.len() && places[i] == (f, e);
                if i < old_places.len() {
                    assert(old_places[i] == (f, e));
                } else {
                    assert(added[i - old_places.len()] == (f, e));
                }
            }
            if old_places.contains((f, e)) {
                let i = choose|i: int| 0 <= i < old_places.len() && old_places[i] == (f, e);
                assert(places[i] == (f, e));
            }
            if added.contains((f, e)) {
                let i = choose|i: int| 0 <= i < added.len() && added[i] == (f, e);
                assert(places[old_places.len() + i] == (f, e));
            }
        }
        if folders.last() is Entries {
            let entries = folders[last]->Entries_0@;
            let order = order::order_of(entries);
            let keep = |place: int| is_listed(rows[last], videos, entries[place]);
            let more = places_in_folder(videos, rows[last], entries);
            assert(more == order.filter(keep));
            lemma_filter(order, keep, e);
            order::stable_order_exists(entries);
            assert(added.contains((f, e)) <==> f == last && more.contains(e)) by {
                if added.contains((f, e)) {
                    let i = choose|i: int| 0 <= i < added.len() && added[i] == (f, e);
                    assert(more[i] == e);
                }
                if f == last && more.contains(e) {
                    let i = choose|i: int| 0 <= i < more.len() && more[i] == e;
                    assert(added[i] == (f, e));
                }
            }
            if order.contains(e) {
                let m = choose|m: int| 0 <= m < order.len() && order[m] == e;
                assert(0 <= order[m] < entries.len());
            }
            if 0 <= e < entries.len() {
                order::stable_order_is_complete(entries, order, e);
            }
        }
    }
}

/// Whether an entry is listed, by the letters of its extension.
proof fn lemma_listed_by_extension(videos: Folder, f: int, entry: DirEntry)
    requires
        0 <= f < 3,
    ensures
        ({
            let has = |entry: DirEntry, f: int|
                entry.path@.extension matches Some(extension) && {
                    let e = text::lowercase(extension);
                    ||| f == 0 && (e == "mp4"@ || e == "webm"@ || e == "mov"@ || e == "m4v"@)
                    ||| f == 1 && (e == "jpg"@ || e == "jpeg"@ || e == "png"@ || e == "gif"@ || e == "webp"@ || e
                        == "bmp"@)
                    ||| f == 2 && (e == "ppt"@ || e == "pptx"@ || e == "pps"@ || e == "ppsx"@ || e == "pdf"@)
                };
            is_listed(media::media_table()[f], videos, entry) <==> {
                &&& entry.is_file
                &&& has(entry, f)
                &&& !(f == 1 && exists|v: int|
                    {
                        &&& videos matches Folder::Entries(others)
                        &&& 0 <= v < others@.len()
                        &&& (#[trigger] videos->Entries_0@[v]).is_file
                        &&& has(videos->Entries_0@[v], 0)
                        &&& entry.path@.stem is Some
                        &&& videos->Entries_0@[v].path@.stem == entry.path@.stem
                    })
            }
        }),
{
    let extension = entry.path@.extension_or_empty();
    media::kinds_have_folders_and_labels("video"@, extension);
    media::kinds_by_extension(extension);
    if entry.path@.extension is None && media::media_type_of(extension) is Some {
        media::supported_extension_is_not_empty(extension);
    }
    let row = media::media_table()[f];
    reveal_strlit("video");
    reveal_strlit("image");
    reveal_strlit("ppt");
    assert("video"@[0] == 'v' && "image"@[0] == 'i' && "ppt"@[0] == 'p');
    assert(row.0 == "image"@ <==> f == 1);
    if let Folder::Entries(others) = videos {
        assert forall|v: int| 0 <= v < others@.len() implies (video_stem(#[trigger] others@[v]) is Some <==> {
            &&& others@[v].is_file
            &&& others@[v].path@.stem is Some
            &&& others@[v].path@.extension matches Some(extension) && {
                let e = text::lowercase(extension);
                e == "mp4"@ || e == "webm"@ || e == "mov"@ || e == "m4v"@
            }
        }) by {
            let other = others@[v].path@.extension_or_empty();
            media::kinds_by_extension(other);
            if others@[v].path@.extension is None && media::media_type_of(other) is Some {
                media::supported_extension_is_not_empty(other);
            }
        }
        if entry.path@.stem is Some {
            let stem = entry.path@.stem.unwrap();
            if is_video_stem(videos, stem) {
                let v = choose|v: int| 0 <= v < others@.len() && video_stem(#[trigger] others@[v]) == Some(stem);
                assert(videos->Entries_0@[v].is_file);
            }
            if exists|v: int|
                {
                    &&& 0 <= v < others@.len()
                    &&& (#[trigger] others@[v]).is_file
                    &&& video_stem(others@[v]) is Some
                    &&& others@[v].path@.stem == entry.path@.stem
                } {
                let v = choose|v: int|
                    {
                        &&& 0 <= v < others@.len()
                        &&& (#[trigger] others@[v]).is_file
                        &&& video_stem(others@[v]) is Some
                        &&& others@[v].path@.stem == entry.path@.stem
                    };
                assert(video_stem(others@[v]) == Some(stem));
            }
        }
    }
}

/// The places behind the list, given the places folder by folder.
proof fn lemma_media_places(meta: Map<Seq<char>, MetaView>, snapshot: Snapshot)
    requires
        listing(meta, snapshot) is Ok,
    ensures
        ({
            let table = media::media_table();
            let folders = snapshot.folders();
            let items = all_items(meta, snapshot.videos, table, folders)->Ok_0;
            let places = places_in_folders(snapshot.videos, table, folders);
            let order = order::order_of(times_of(items));
            &&& places_fit(meta, snapshot.videos, table, folders, places, items)
            &&& order::is_stable_order(times_of(items), order)
            &&& order.len() == items.len()
            &&& listing(meta, snapshot)->Ok_0.len() == items.len()
            &&& media_places(meta, snapshot).len() == items.len()
            &&& forall|i: int|
                0 <= i < items.len() ==> {
                    &&& 0 <= #[trigger] order[i] < items.len()
                    &&& media_places(meta, snapshot)[i] == places[order[i]]
                    &&& listing(meta, snapshot)->Ok_0[i] == items[order[i]].0
                }
        }),
{
    let table = media::media_table();
    let folders = snapshot.folders();
    let items = all_items(meta, snapshot.videos, table, folders)->Ok_0;
    lemma_places(meta, snapshot.videos, table, folders);
    order::stable_order_exists(times_of(items));
}

/// The list has exactly one item for each file in the folder of the videos, the
/// images or the slides that has one of the extensions of that folder, in capitals
/// or not, except for images that are called like a video in the folder of the
/// videos.
pub proof fn every_supported_file_is_listed_once(
    meta: Map<Seq<char>, MetaView>,
    snapshot: Snapshot,
    f: int,
    e: int,
)
    requires
        listing(meta, snapshot) is Ok,
    ensures
        ({
            let folder = if f == 0 {
                snapshot.videos
            } else if f == 1 {
                snapshot.images
            } else {
                snapshot.ppt
            };
            let has = |entry: DirEntry, f: int|
                entry.path@.extension matches Some(extension) && {
                    let e = text::lowercase(extension);
                    ||| f == 0 && (e == "mp4"@ || e == "webm"@ || e == "mov"@ || e == "m4v"@)
                    ||| f == 1 && (e == "jpg"@ || e == "jpeg"@ || e == "png"@ || e == "gif"@ || e == "webp"@ || e
                        == "bmp"@)
                    ||| f == 2 && (e == "ppt"@ || e == "pptx"@ || e == "pps"@ || e == "ppsx"@ || e == "pdf"@)
                };
            let entry = folder->Entries_0@[e];
            &&& media_places(meta, snapshot).len() == listing(meta, snapshot)->Ok_0.len()
            &&& media_places(meta, snapshot).no_duplicates()
            &&& media_places(meta, snapshot).contains((f, e)) <==> {
                &&& 0 <= f < 3
                &&& folder is Entries
                &&& 0 <= e < folder->Entries_0@.len()
                &&& entry.is_file
                &&& has(entry, f)
                &&& !(f == 1 && exists|v: int|
                    {
                        &&& snapshot.videos matches Folder::Entries(others)
                        &&& 0 <= v < others@.len()
                        &&& (#[trigger] snapshot.videos->Entries_0@[v]).is_file
                        &&& has(snapshot.videos->Entries_0@[v], 0)
                        &&& entry.path@.stem is Some
                        &&& snapshot.videos->Entries_0@[v].path@.stem == entry.path@.stem
                    })
            }
        }),
{
    let table = media::media_table();
    let folders = snapshot.folders();
    let items = all_items(meta, snapshot.videos, table, folders)->Ok_0;
    let places = places_in_folders(snapshot.videos, table, folders);
    let order = order::order_of(times_of(items));
    let shown = media_places(meta, snapshot);
    lemma_media_places(meta, snapshot);
    lemma_place_is_listed(snapshot.videos, table, folders, f, e);
    assert forall|i: int, j: int| 0 <= i < shown.len() && 0 <= j < shown.len() && i != j implies shown[i]
        != shown[j] by {
        assert(order[i] != order[j]);
        assert(places[order[i]] != places[order[j]]);
    }
    assert(shown.contains((f, e)) <==> places.contains((f, e))) by {
        if shown.contains((f, e)) {
            let i = choose|i: int| 0 <= i < shown.len() && shown[i] == (f, e);
            assert(places[order[i]] == (f, e));
        }
        if places.contains((f, e)) {
            let k = choose|k: int| 0 <= k < places.len() && places[k] == (f, e);
            order::stable_order_is_complete(times_of(items), order, k);
            let i = choose|i: int| 0 <= i < order.len() && order[i] == k;
            assert(shown[i] == (f, e));
        }
    }
    if 0 <= f < 3 {
        assert(folders[f] == if f == 0 {
            snapshot.videos
        } else if f == 1 {
            snapshot.images
        } else {
            snapshot.ppt
        });
        if folders[f] is Entries {
            lemma_listed_by_extension(snapshot.videos, f, folders[f]->Entries_0@[e]);
        }
    }
}

/// What an item says of its file: its name, path and size, the kind and the labels of
/// its folder, the MIME type of its extension, the poster of a video, and the
/// description kept under its name, with the stem for a title where that is blank.
pub proof fn items_tell_of_their_files(meta: Map<Seq<char>, MetaView>, snapshot: Snapshot, i: int)
    requires
        listing(meta, snapshot) is Ok,
        0 <= i < listing(meta, snapshot)->Ok_0.len(),
    ensures
        ({
            let (f, e) = media_places(meta, snapshot)[i];
            let folder = if f == 0 {
                snapshot.videos
            } else if f == 1 {
                snapshot.images
            } else {
                snapshot.ppt
            };
            let entry = folder->Entries_0@[e];
            let item = listing(meta, snapshot)->Ok_0[i];
            let described = meta.contains_key(item.name);
            &&& entry.path@.name matches Some(name) ==> item.name == name
            &&& entry.path@.name is None ==> item.name.len() == 0
            &&& item.url == entry.shown@
            &&& entry.details matches Ok(details) && item.size == details.size
            &&& f == 0 ==> item.kind == "video"@ && item.type_label == "视频"@ && item.folder_label == "视频目录"@
            &&& f == 1 ==> item.kind == "image"@ && item.type_label == "图片"@ && item.folder_label == "图片目录"@
            &&& f == 2 ==> item.kind == "ppt"@ && item.type_label == "PPT"@ && item.folder_label == "PPT 目录"@
            &&& entry.path@.extension matches Some(extension) && item.mime_type == media::mime_of(
                text::lowercase(extension),
            )
            &&& f == 0 ==> item.poster_url == poster::poster_of(
                names::stem_of(item.name),
                entry.posters.deep_view(),
                entry.images.deep_view(),
            )
            &&& f != 0 ==> item.poster_url.len() == 0
            &&& item.achievement.title == item.display_name
            &&& described && text::trimmed(meta[item.name].title).len() > 0 ==> item.display_name
                == meta[item.name].title
            &&& !(described && text::trimmed(meta[item.name].title).len() > 0) ==> match entry.path@.stem {
                Some(stem) => item.display_name == stem,
                None => item.display_name.len() == 0,
            }
            &&& described ==> {
                &&& item.achievement.owner == meta[item.name].owner
                &&& item.achievement.patent_no == meta[item.name].patent_no
                &&& item.achievement.description == meta[item.name].description
                &&& item.achievement.created_at == meta[item.name].created_at
            }
            &&& !described ==> {
                &&& item.achievement.owner.len() == 0
                &&& item.achievement.patent_no.len() == 0
                &&& item.achievement.description.len() == 0
                &&& item.achievement.created_at.len() == 0
            }
        }),
{
    let table = media::media_table();
    let folders = snapshot.folders();
    let items = all_items(meta, snapshot.videos, table, folders)->Ok_0;
    let places = places_in_folders(snapshot.videos, table, folders);
    let order = order::order_of(times_of(items));
    lemma_media_places(meta, snapshot);
    let k = order[i];
    let (f, e) = places[k];
    assert(0 <= f < 3);
    let entry = folders[f]->Entries_0@[e];
    assert(shows(meta, snapshot.videos, table[f], entry, items[k]));
    lemma_listed_by_extension(snapshot.videos, f, entry);
    media::kinds_have_folders_and_labels(table[f].0, entry.path@.extension_or_empty());
    reveal_strlit("video");
    reveal_strlit("image");
    reveal_strlit("ppt");
    assert("video"@[0] == 'v' && "image"@[0] == 'i' && "ppt"@[0] == 'p');
}

/// Of two files the one that was changed later comes first, where a time that is not
/// known counts as the epoch. Files of the same time come in the order of their
/// folders, which is videos, images, slides, and within a folder in the order of
/// the bytes of their names.
pub proof fn later_changes_come_first(meta: Map<Seq<char>, MetaView>, snapshot: Snapshot, i: int, j: int)
    requires
        listing(meta, snapshot) is Ok,
        0 <= i < listing(meta, snapshot)->Ok_0.len(),
        0 <= j < listing(meta, snapshot)->Ok_0.len(),
    ensures
        ({
            let entry_at = |place: (int, int)|
                (if place.0 == 0 {
                    snapshot.videos
                } else if place.0 == 1 {
                    snapshot.images
                } else {
                    snapshot.ppt
                })->Entries_0@[place.1];
            let changed = |entry: DirEntry|
                match entry.details->Ok_0.modified {
                    Some(millis) => millis as int,
                    None => 0,
                };
            let (p, q) = (media_places(meta, snapshot)[i], media_places(meta, snapshot)[j]);
            let (a, b) = (entry_at(p), entry_at(q));
            &&& a.details is Ok && b.details is Ok
            &&& changed(a) > changed(b) ==> i < j
            &&& changed(a) == changed(b) && p.0 < q.0 ==> i < j
            &&& changed(a) == changed(b) && p.0 == q.0 && order::bytes_before(a.name_bytes@, b.name_bytes@) ==> i < j
        }),
{
    let table = media::media_table();
    let folders = snapshot.folders();
    let items = all_items(meta, snapshot.videos, table, folders)->Ok_0;
    let places = places_in_folders(snapshot.videos, table, folders);
    let order = order::order_of(times_of(items));
    lemma_media_places(meta, snapshot);
    let (k, l) = (order[i], order[j]);
    let (p, q) = (places[k], places[l]);
    let a = folders[p.0]->Entries_0@[p.1];
    let b = folders[q.0]->Entries_0@[q.1];
    assert(shows(meta, snapshot.videos, table[p.0], a, items[k]));
    assert(shows(meta, snapshot.videos, table[q.0], b, items[l]));
    order::bytes_before_is_asymmetric(a.name_bytes@, b.name_bytes@);
    if j < i {
        assert(order::precedes(times_of(items), l, k));
        if l < k {
            assert(places[l].0 < places[k].0 || (places[l].0 == places[k].0 && order::precedes(
                folders[places[l].0]->Entries_0@,
                places[l].1,
                places[k].1,
            )));
        }
    } else if i == j {
        order::bytes_before_is_asymmetric(a.name_bytes@, a.name_bytes@);
    }
}

proof fn lemma_folder_fails(
    meta: Map<Seq<char>, MetaView>,
    videos: Folder,
    row: MediaRow,
    entries: Seq<DirEntry>,
)
    ensures
        folder_items(meta, videos, row, entries) is Ok <==> forall|e: int|
            0 <= e < entries.len() && is_listed(row, videos, #[trigger] entries[e]) ==> entries[e].details is Ok,
        folder_items(meta, videos, row, entries) matches Err(reason) ==> exists|e: int|
            {
                &&& 0 <= e < entries.len()
                &&& is_listed(row, videos, #[trigger] entries[e])
                &&& entries[e].details matches Err(text) && text@ == reason
                &&& forall|d: int|
                    0 <= d < e && is_listed(row, videos, #[trigger] entries[d]) ==> entries[d].details is Ok
            },
    decreases entries.len(),
{
    if entries.len() > 0 {
        let rest = entries.drop_last();
        let last = entries.len() - 1;
        lemma_folder_fails(meta, videos, row, rest);
        assert forall|e: int| 0 <= e < rest.len() implies #[trigger] entries[e] == rest[e] by {}
        if folder_items(meta, videos, row, rest) is Err {
            let reason = folder_items(meta, videos, row, rest)->Err_0;
            let e = choose|e: int|
                {
                    &&& 0 <= e < rest.len()
                    &&& is_listed(row, videos, #[trigger] rest[e])
                    &&& rest[e].details matches Err(text) && text@ == reason
                    &&& forall|d: int|
                        0 <= d < e && is_listed(row, videos, #[trigger] rest[d]) ==> rest[d].details is Ok
                };
            assert(entries[e] == rest[e]);
            assert forall|d: int| 0 <= d < e && is_listed(row, videos, #[trigger] entries[d]) implies entries[d].details is Ok by {
                assert(entries[d] == rest[d]);
            }
        } else {
            assert forall|d: int| 0 <= d < last && is_listed(row, videos, #[trigger] entries[d]) implies entries[d].details is Ok by {
                assert(entries[d] == rest[d]);
            }
            if is_listed(row, videos, entries[last]) && entries[last].details is Err {
                assert(is_listed(row, videos, entries[last]));
            }
        }
    }
}

/// Whether a folder keeps the list from being made: it cannot be read, or the details
/// of one of its listed files cannot be had.
spec fn folder_fails(videos: Folder, row: MediaRow, folder: Folder) -> bool {
    ||| folder is Unreadable
    ||| folder matches Folder::Entries(entries) && exists|e: int|
        0 <= e < entries@.len() && is_listed(row, videos, #[trigger] entries@[e]) && entries@[e].details is Err
}

/// Whether `reason` is why a folder keeps the list from being made: of several files
/// it is that of one whose name comes first.
spec fn folder_fails_for(videos: Folder, row: MediaRow, folder: Folder, reason: Seq<char>) -> bool {
    ||| folder matches Folder::Unreadable(text) && text@ == reason
    ||| folder matches Folder::Entries(entries) && exists|e: int|
        {
            &&& 0 <= e < entries@.len()
            &&& is_listed(row, videos, #[trigger] entries@[e])
            &&& entries@[e].details matches Err(text) && text@ == reason
            &&& forall|d: int|
                {
                    &&& 0 <= d < entries@.len()
                    &&& is_listed(row, videos, #[trigger] entries@[d])
                    &&& entries@[d].details is Err
                } ==> !order::bytes_before(entries@[d].name_bytes@, entries@[e].name_bytes@)
        }
}

proof fn lemma_sorted_folder_fails(
    meta: Map<Seq<char>, MetaView>,
    videos: Folder,
    row: MediaRow,
    folder: Folder,
)
    requires
        folder is Entries,
    ensures
        ({
            let entries = folder->Entries_0@;
            let items = folder_items(meta, videos, row, order::arranged(entries, entries));
            &&& items is Err <==> folder_fails(videos, row, folder)
            &&& items matches Err(reason) ==> folder_fails_for(videos, row, folder, reason)
        }),
{
    let entries = folder->Entries_0@;
    let sorted = order::arranged(entries, entries);
    let order = order::order_of(entries);
    order::stable_order_exists(entries);
    lemma_folder_fails(meta, videos, row, sorted);
    let items = folder_items(meta, videos, row, sorted);
    if items is Err {
        let reason = items->Err_0;
        let e = choose|e: int|
            {
                &&& 0 <= e < sorted.len()
                &&& is_listed(row, videos, #[trigger] sorted[e])
                &&& sorted[e].details matches Err(text) && text@ == reason
                &&& forall|d: int|
                    0 <= d < e && is_listed(row, videos, #[trigger] sorted[d]) ==> sorted[d].details is Ok
            };
        let place = order[e];
        assert(0 <= place < entries.len());
        assert(entries[place] == sorted[e]);
        assert(is_listed(row, videos, entries[place]));
        assert forall|d: int|
            {
                &&& 0 <= d < entries.len()
                &&& is_listed(row, videos, #[trigger] entries[d])
                &&& entries[d].details is Err
            } implies !order::bytes_before(entries[d].name_bytes@, entries[place].name_bytes@) by {
            order::stable_order_is_complete(entries, order, d);
            let m = choose|m: int| 0 <= m < order.len() && order[m] == d;
            assert(sorted[m] == entries[d]);
            if m < e {
                assert(is_listed(row, videos, sorted[m]));
            } else if m > e {
                assert(order::precedes(entries, order[e], order[m]));
                order::bytes_before_is_asymmetric(entries[d].name_bytes@, entries[place].name_bytes@);
            } else {
                order::bytes_before_is_asymmetric(entries[d].name_bytes@, entries[d].name_bytes@);
            }
        }
    } else if folder_fails(videos, row, folder) {
        let d = choose|d: int|
            0 <= d < entries.len() && is_listed(row, videos, #[trigger] entries[d]) && entries[d].details is Err;
        order::stable_order_is_complete(entries, order, d);
        let m = choose|m: int| 0 <= m < order.len() && order[m] == d;
        assert(sorted[m] == entries[d]);
        assert(is_listed(row, videos, sorted[m]));
    }
}

/// The list cannot be made exactly if a folder that is there cannot be read, or the
/// details of a file that would be listed cannot be had. The answer is then the
/// reason in the first such folder, and of several files in it that of one whose
/// name comes first. A folder that is missing is no reason.
pub proof fn list_fails_for_the_first_reason(meta: Map<Seq<char>, MetaView>, snapshot: Snapshot)
    ensures
        ({
            let has = |entry: DirEntry, f: int|
                entry.path@.extension matches Some(extension) && {
                    let e = text::lowercase(extension);
                    ||| f == 0 && (e == "mp4"@ || e == "webm"@ || e == "mov"@ || e == "m4v"@)
                    ||| f == 1 && (e == "jpg"@ || e == "jpeg"@ || e == "png"@ || e == "gif"@ || e == "webp"@ || e
                        == "bmp"@)
                    ||| f == 2 && (e == "ppt"@ || e == "pptx"@ || e == "pps"@ || e == "ppsx"@ || e == "pdf"@)
                };
            let listed = |f: int, entry: DirEntry|
                {
                    &&& entry.is_file
                    &&& has(entry, f)
                    &&& !(f == 1 && exists|v: int|
                        {
                            &&& snapshot.videos matches Folder::Entries(others)
                            &&& 0 <= v < others@.len()
                            &&& (#[trigger] snapshot.videos->Entries_0@[v]).is_file
                            &&& has(snapshot.videos->Entries_0@[v], 0)
                            &&& entry.path@.stem is Some
                            &&& snapshot.videos->Entries_0@[v].path@.stem == entry.path@.stem
                        })
                };
            let fails = |f: int, folder: Folder|
                folder is Unreadable || (folder matches Folder::Entries(entries) && exists|e: int|
                    0 <= e < entries@.len() && listed(f, #[trigger] entries@[e]) && entries@[e].details is Err);
            let fails_for = |f: int, folder: Folder, reason: Seq<char>|
                {
                    ||| folder matches Folder::Unreadable(why) && why@ == reason
                    ||| folder matches Folder::Entries(entries) && exists|e: int|
                        {
                            &&& 0 <= e < entries@.len()
                            &&& listed(f, #[trigger] entries@[e])
                            &&& entries@[e].details matches Err(why) && why@ == reason
                            &&& forall|d: int|
                                {
                                    &&& 0 <= d < entries@.len()
                                    &&& listed(f, #[trigger] entries@[d])
                                    &&& entries@[d].details is Err
                                } ==> !order::bytes_before(entries@[d].name_bytes@, entries@[e].name_bytes@)
                        }
                };
            let (a, b, c) = (fails(0, snapshot.videos), fails(1, snapshot.images), fails(2, snapshot.ppt));
            &&& listing(meta, snapshot) is Err <==> a || b || c
            &&& listing(meta, snapshot) matches Err(reason) ==> {
                &&& a ==> fails_for(0, snapshot.videos, reason)
                &&& !a && b ==> fails_for(1, snapshot.images, reason)
                &&& !a && !b && c ==> fails_for(2, snapshot.ppt, reason)
            }
        }),
{
    let table = media::media_table();
    let videos = snapshot.videos;
    let folders = snapshot.folders();
    assert forall|f: int, entry: DirEntry| 0 <= f < 3 implies (#[trigger] is_listed(table[f], videos, entry) <==> {
        let has = |entry: DirEntry, f: int|
            entry.path@.extension matches Some(extension) && {
                let e = text::lowercase(extension);
                ||| f == 0 && (e == "mp4"@ || e == "webm"@ || e == "mov"@ || e == "m4v"@)
                ||| f == 1 && (e == "jpg"@ || e == "jpeg"@ || e == "png"@ || e == "gif"@ || e == "webp"@ || e
                    == "bmp"@)
                ||| f == 2 && (e == "ppt"@ || e == "pptx"@ || e == "pps"@ || e == "ppsx"@ || e == "pdf"@)
            };
        &&& entry.is_file
        &&& has(entry, f)
        &&& !(f == 1 && exists|v: int|
            {
                &&& videos matches Folder::Entries(others)
                &&& 0 <= v < others@.len()
                &&& (#[trigger] videos->Entries_0@[v]).is_file
                &&& has(videos->Entries_0@[v], 0)
                &&& entry.path@.stem is Some
                &&& videos->Entries_0@[v].path@.stem == entry.path@.stem
            })
    }) by {
        lemma_listed_by_extension(videos, f, entry);
    }
    assert forall|f: int| 0 <= f < 3 && #[trigger] folders[f] is Entries implies {
        let entries = folders[f]->Entries_0@;
        let items = folder_items(meta, videos, table[f], order::arranged(entries, entries));
        &&& items is Err <==> folder_fails(videos, table[f], folders[f])
        &&& items matches Err(reason) ==> folder_fails_for(videos, table[f], folders[f], reason)
    } by {
        lemma_sorted_folder_fails(meta, videos, table[f], folders[f]);
    }
    reveal_with_fuel(all_items, 4);
    assert(folders[0] == videos && folders[1] == snapshot.images && folders[2] == snapshot.ppt);
    let (rows1, folders1) = (table.drop_last(), folders.drop_last());
    let (rows2, folders2) = (rows1.drop_last(), folders1.drop_last());
    assert(rows1.last() == table[1] && folders1.last() == folders[1]);
    assert(rows2.last() == table[0] && folders2.last() == folders[0]);
    assert(rows2.drop_last().len() == 0);
}

/// The list that is answered is the one the laws speak of: for any two of its items
/// the file that was changed later comes first, and an answer without a list gives
/// the first reason.
pub proof fn answered_list_is_newest_first(
    meta: &MetaStore,
    snapshot: &Snapshot,
    res: Result<MediaPayload, String>,
    i: int,
    j: int,
)
    requires
        call_ensures(list_media, (meta, snapshot), res),
    ensures
        match res {
            Ok(payload) => {
                &&& listing(meta@, *snapshot) == Ok::<Seq<MediaItemView>, Seq<char>>(payload.items.deep_view())
                &&& 0 <= i < payload.items@.len() && 0 <= j < payload.items@.len() ==> {
                    let entry_at = |place: (int, int)|
                        (if place.0 == 0 {
                            snapshot.videos
                        } else if place.0 == 1 {
                            snapshot.images
                        } else {
                            snapshot.ppt
                        })->Entries_0@[place.1];
                    let (p, q) = (media_places(meta@, *snapshot)[i], media_places(meta@, *snapshot)[j]);
                    let (a, b) = (entry_at(p), entry_at(q));
                    &&& a.details is Ok && b.details is Ok
                    &&& payload.items@[i].url@ == a.shown@ && payload.items@[j].url@ == b.shown@
                    &&& match (a.details->Ok_0.modified, b.details->Ok_0.modified) {
                        (Some(first), Some(second)) => first > second ==> i < j,
                        (Some(first), None) => first > 0 ==> i < j,
                        _ => true,
                    }
                }
            },
            Err(reason) => listing(meta@, *snapshot) == Err::<Seq<MediaItemView>, Seq<char>>(reason@),
        },
{
    if let Ok(payload) = res {
        if 0 <= i < payload.items@.len() && 0 <= j < payload.items@.len() {
            later_changes_come_first(meta@, *snapshot, i, j);
            items_tell_of_their_files(meta@, *snapshot, i);
            items_tell_of_their_files(meta@, *snapshot, j);
            assert(payload.items.deep_view()[i] == payload.items@[i]@);
            assert(payload.items.deep_view()[j] == payload.items@[j]@);
        }
    }
}

} // verus!

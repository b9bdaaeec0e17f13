//! Preparing the resource folder when the program starts.
use vstd::prelude::*;

use crate::media;
use crate::media::{has_any_media, media_types};
use crate::poster::POSTER_FOLDER;

verus! {

/// The name of the resource folder.
pub const RESOURCES_FOLDER: &'static str = "resources";

/// The folder that the resource folder lies in: the data folder of the program,
/// or else the local data folder, or else the folder the program was installed
/// with, or else the current one.
pub fn resources_dir<P>(app_data: Option<P>, local_data: Option<P>, installed: Option<P>, current: P) -> (res: P)
    ensures
        res == match (app_data, local_data, installed) {
            (Some(path), _, _) => path,
            (None, Some(path), _) => path,
            (None, None, Some(path)) => path,
            (None, None, None) => current,
        },
{
    match (app_data, local_data, installed) {
        (Some(path), _, _) => path,
        (None, Some(path), _) => path,
        (None, None, Some(path)) => path,
        (None, None, None) => current,
    }
}

/// The folders of the resource folder: those of the media table, then the one of
/// the posters.
pub open spec fn resource_folders() -> Seq<Seq<char>> {
    media::media_table().map_values(|row: media::MediaRow| row.1).push("posters"@)
}

/// The folders that are created in the resource folder, in order.
pub fn setup_folders() -> (res: Vec<&'static str>)
    ensures
        res.deep_view() == resource_folders(),
{
    let rows = media_types();
    let ghost table = media::media_table();
    let ghost folders = table.map_values(|row: media::MediaRow| row.1);
    let mut res: Vec<&'static str> = Vec::new();
    let mut i: usize = 0;
    assert(res.deep_view() == folders.take(0));
    while i < rows.len()
        invariant
            i <= rows@.len(),
            rows.deep_view() == table,
            folders == table.map_values(|row: media::MediaRow| row.1),
            res.deep_view() == folders.take(i as int),
        decreases rows@.len() - i,
    {
        assert(table[i as int] == rows@[i as int].deep_view());
        let ghost before = res.deep_view();
        res.push(rows[i].1);
        assert(res.deep_view() == before.push(folders[i as int]));
        assert(res.deep_view() == folders.take(i + 1));
        i += 1;
    }
    assert(folders.take(i as int) == folders);
    res.push(POSTER_FOLDER);
    assert(res.deep_view() == resource_folders());
    res
}

/// A folder that the resource folder can be filled from.
#[derive(Clone, Copy, PartialEq, Eq, Structural, Debug)]
pub enum SeedSource {
    /// `resources` in the folder the program was installed with.
    Installed,
    /// `resources` in the working folder.
    Working,
    /// `src-tauri/target/debug/resources` in the working folder.
    WorkingDebug,
}

/// What is found in the resource folder, and which base folders are known.
pub struct SetupState {
    /// The media folders: `None` where one is missing or cannot be read, and
    /// else for each entry whether it is a file.
    pub folders: Vec<Option<Vec<bool>>>,
    /// Whether the file with the descriptions is there.
    pub has_descriptions: bool,
    /// Whether the folder the program was installed with is known.
    pub installed_known: bool,
    /// Whether the working folder is known.
    pub working_known: bool,
}

/// Whether a media folder holds a file.
pub open spec fn holds_file(folder: Option<Vec<bool>>) -> bool {
    folder matches Some(entries) && entries@.contains(true)
}

/// Whether the resource folder is still to be filled: it holds no media and no
/// descriptions.
pub open spec fn is_untouched(state: SetupState) -> bool {
    &&& !state.has_descriptions
    &&& forall|i: int| 0 <= i < state.folders@.len() ==> !holds_file(#[trigger] state.folders@[i])
}

/// The folders that the resource folder can be filled from, given which base
/// folders are known.
pub open spec fn known_sources(installed_known: bool, working_known: bool) -> Seq<SeedSource> {
    (if installed_known {
        seq![SeedSource::Installed]
    } else {
        Seq::empty()
    }) + (if working_known {
        seq![SeedSource::Working, SeedSource::WorkingDebug]
    } else {
        Seq::empty()
    })
}

/// The folders from which the resource folder is filled, in order: none once it
/// holds media or descriptions.
pub fn initialize_resources(state: &SetupState) -> (res: Vec<SeedSource>)
    ensures
        res@ == if is_untouched(*state) {
            known_sources(state.installed_known, state.working_known)
        } else {
            Seq::empty()
        },
{
    let mut res: Vec<SeedSource> = Vec::new();
    if !has_any_media(&state.folders) && !state.has_descriptions {
        assert(is_untouched(*state));
        if state.installed_known {
            res.push(SeedSource::Installed);
        }
        if state.working_known {
            res.push(SeedSource::Working);
            res.push(SeedSource::WorkingDebug);
        }
    }
    res
}

/// Whether a source is copied: it is there and is not the resource folder itself.
pub fn is_seed(exists: bool, is_resource_folder: bool) -> (res: bool)
    ensures
        res == (exists && !is_resource_folder),
{
    exists && !is_resource_folder
}

/// The resource folder has a folder for the videos, the images, the slides and the
/// posters, and no other.
pub proof fn four_folders_are_created(folder: Seq<char>)
    ensures
        resource_folders().len() == 4,
        resource_folders().contains(folder) <==> folder == "videos"@ || folder == "images"@ || folder == "ppt"@
            || folder == "posters"@,
{
    let folders = resource_folders();
    assert(folders[0] == "videos"@ && folders[1] == "images"@ && folders[2] == "ppt"@ && folders[3] == "posters"@);
}

/// The resource folder is filled only if it holds no descriptions and no file in any
/// of its media folders, and then from every source whose base folder is known: the
/// installed one first, and the debug build after the working folder.
pub proof fn only_an_untouched_folder_is_filled(state: SetupState, source: SeedSource)
    ensures
        is_untouched(state) <==> !state.has_descriptions && !exists|i: int, j: int|
            {
                &&& 0 <= i < state.folders@.len()
                &&& #[trigger] state.folders@[i] matches Some(entries)
                &&& 0 <= j < entries@.len()
                &&& #[trigger] state.folders@[i].unwrap()@[j]
            },
        ({
            let sources = known_sources(state.installed_known, state.working_known);
            &&& sources.contains(source) <==> if source is Installed {
                state.installed_known
            } else {
                state.working_known
            }
            &&& sources.no_duplicates()
            &&& forall|i: int| 0 <= i < sources.len() && #[trigger] sources[i] is Installed ==> i == 0
            &&& forall|i: int| 0 <= i < sources.len() && #[trigger] sources[i] is WorkingDebug ==> i == sources.len() - 1
        }),
{
    let sources = known_sources(state.installed_known, state.working_known);
    if state.installed_known {
        assert(sources[0] is Installed);
    }
    if state.working_known {
        assert(sources[sources.len() - 2] is Working);
        assert(sources[sources.len() - 1] is WorkingDebug);
    }
    if is_untouched(state) {
        assert forall|i: int, j: int| 0 <= i < state.folders@.len() && state.folders@[i] is Some && 0 <= j
            < state.folders@[i].unwrap()@.len() implies !#[trigger] state.folders@[i].unwrap()@[j] by {
            assert(!holds_file(state.folders@[i]));
            if state.folders@[i].unwrap()@[j] {
                assert(state.folders@[i].unwrap()@.contains(true));
            }
        }
    } else if !state.has_descriptions {
        let i = choose|i: int| 0 <= i < state.folders@.len() && holds_file(#[trigger] state.folders@[i]);
        let entries = state.folders@[i].unwrap()@;
        let j = choose|j: int| 0 <= j < entries.len() && entries[j] == true;
        assert(state.folders@[i].unwrap()@[j]);
    }
}

/// A resource folder that holds descriptions, or a file in one of its media folders,
/// is not filled from anywhere; any other is filled from the installed folder and the
/// working folder as far as they are known.
pub proof fn filling_depends_on_what_is_there(state: &SetupState, res: Vec<SeedSource>, i: int, j: int)
    requires
        call_ensures(initialize_resources, (state,), res),
    ensures
        state.has_descriptions ==> res@.len() == 0,
        0 <= i < state.folders@.len() && (state.folders@[i] matches Some(entries) && 0 <= j < entries@.len()
            && entries@[j]) ==> res@.len() == 0,
        !state.has_descriptions && (forall|i: int, j: int|
            {
                &&& 0 <= i < state.folders@.len()
                &&& #[trigger] state.folders@[i] matches Some(entries)
                &&& 0 <= j < entries@.len()
            } ==> !#[trigger] state.folders@[i].unwrap()@[j]) ==> {
            &&& res@.contains(SeedSource::Installed) <==> state.installed_known
            &&& res@.contains(SeedSource::Working) <==> state.working_known
            &&& res@.contains(SeedSource::WorkingDebug) <==> state.working_known
        },
{
    only_an_untouched_folder_is_filled(*state, SeedSource::Installed);
    only_an_untouched_folder_is_filled(*state, SeedSource::Working);
    only_an_untouched_folder_is_filled(*state, SeedSource::WorkingDebug);
    if 0 <= i < state.folders@.len() && state.folders@[i] is Some && 0 <= j < state.folders@[i].unwrap()@.len()
        && state.folders@[i].unwrap()@[j] {
        assert(!is_untouched(*state));
    }
}

} // verus!

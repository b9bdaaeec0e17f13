//! Posters: the images that stand for videos. A poster has the name of its
//! video and lies in the poster folder or among the images.
use vstd::prelude::*;

use crate::names;
use crate::names::{FilePath, FilePathView};
use crate::text::same_text;

verus! {

/// The folder of the posters.
pub const POSTER_FOLDER: &'static str = "posters";

/// The folder of the images.
pub const IMAGE_FOLDER: &'static str = "images";

/// A folder in which posters were looked for, `None` where it is missing: the
/// name of each candidate that is there, and how its path is shown.
pub type FoundFiles = Option<Vec<(String, String)>>;

/// The extensions of posters, in the order in which they are tried.
pub open spec fn poster_extensions() -> Seq<Seq<char>> {
    seq!["jpg"@, "jpeg"@, "png"@, "gif"@, "webp"@, "bmp"@]
}

/// The names a poster can have, in the order in which they are tried.
pub open spec fn poster_names(stem: Seq<char>) -> Seq<Seq<char>> {
    poster_extensions().map_values(|extension: Seq<char>| stem + "."@ + extension)
}

/// How the file called `name` is shown, if it was found.
pub open spec fn shown_as(found: Seq<(Seq<char>, Seq<char>)>, name: Seq<char>) -> Option<Seq<char>>
    decreases found.len(),
{
    if found.len() == 0 {
        None
    } else if found[0].0 == name {
        Some(found[0].1)
    } else {
        shown_as(found.drop_first(), name)
    }
}

/// The first of `names` that was found, as it is shown.
pub open spec fn first_shown(
    names: Seq<Seq<char>>,
    found: Seq<(Seq<char>, Seq<char>)>,
) -> Option<Seq<char>>
    decreases names.len(),
{
    if names.len() == 0 {
        None
    } else if shown_as(found, names[0]) is Some {
        shown_as(found, names[0])
    } else {
        first_shown(names.drop_first(), found)
    }
}

/// The poster in one folder.
pub open spec fn poster_in(
    folder: Option<Seq<(Seq<char>, Seq<char>)>>,
    stem: Seq<char>,
) -> Option<Seq<char>> {
    match folder {
        Some(found) => first_shown(poster_names(stem), found),
        None => None,
    }
}

/// The poster of a video: from the poster folder, or else from the images, or
/// else the empty text.
pub open spec fn poster_of(
    stem: Seq<char>,
    posters: Option<Seq<(Seq<char>, Seq<char>)>>,
    images: Option<Seq<(Seq<char>, Seq<char>)>>,
) -> Seq<char> {
    match poster_in(posters, stem) {
        Some(shown) => shown,
        None => match poster_in(images, stem) {
            Some(shown) => shown,
            None => Seq::empty(),
        },
    }
}

/// Those of `names` that were found.
pub open spec fn found_among(
    names: Seq<Seq<char>>,
    found: Seq<(Seq<char>, Seq<char>)>,
) -> Seq<Seq<char>> {
    names.filter(|name: Seq<char>| shown_as(found, name) is Some)
}

/// The posters in one folder that go with a video, each with its folder.
pub open spec fn doomed_in(
    folder_name: Seq<char>,
    folder: Option<Seq<(Seq<char>, Seq<char>)>>,
    stem: Seq<char>,
) -> Seq<(Seq<char>, Seq<char>)> {
    match folder {
        Some(found) => found_among(poster_names(stem), found).map_values(
            |name: Seq<char>| (folder_name, name),
        ),
        None => Seq::empty(),
    }
}

/// The posters that go with a video, in the order in which they are removed.
pub open spec fn doomed(
    stem: Seq<char>,
    posters: Option<Seq<(Seq<char>, Seq<char>)>>,
    images: Option<Seq<(Seq<char>, Seq<char>)>>,
) -> Seq<(Seq<char>, Seq<char>)> {
    if stem.len() == 0 {
        Seq::empty()
    } else {
        doomed_in("posters"@, posters, stem) + doomed_in("images"@, images, stem)
    }
}

/// `stem.extension`.
pub fn join_extension(stem: &str, extension: &str) -> (res: String)
    ensures
        res@ == stem@ + "."@ + extension@,
{
    stem.to_owned().concat(".").concat(extension)
}

/// The names a poster can have, in the order in which they are tried.
pub fn poster_candidates(stem: &str) -> (res: Vec<String>)
    ensures
        res.deep_view() == poster_names(stem@),
{
    let res = vec![
        join_extension(stem, "jpg"),
        join_extension(stem, "jpeg"),
        join_extension(stem, "png"),
        join_extension(stem, "gif"),
        join_extension(stem, "webp"),
        join_extension(stem, "bmp"),
    ];
    assert(res.deep_view() == poster_names(stem@));
    res
}

fn find_shown(found: &Vec<(String, String)>, name: &str) -> (res: Option<String>)
    ensures
        res.deep_view() == shown_as(found.deep_view(), name@),
{
    let ghost all = found.deep_view();
    let mut i: usize = 0;
    assert(all.skip(0) == all);
    while i < found.len()
        invariant
            i <= found@.len(),
            all == found.deep_view(),
            shown_as(all, name@) == shown_as(all.skip(i as int), name@),
        decreases found@.len() - i,
    {
        assert(all[i as int] == found@[i as int].deep_view());
        assert(all.skip(i as int).drop_first() == all.skip(i + 1));
        if same_text(found[i].0.as_str(), name) {
            return Some(found[i].1.clone());
        }
        i += 1;
    }
    None
}

fn find_in_folder(folder: &FoundFiles, stem: &str) -> (res: Option<String>)
    ensures
        res.deep_view() == poster_in(folder.deep_view(), stem@),
{
    let found = match folder {
        Some(found) => found,
        None => {
            return None;
        },
    };
    let candidates = poster_candidates(stem);
    let ghost all = poster_names(stem@);
    let mut i: usize = 0;
    assert(all.skip(0) == all);
    while i < candidates.len()
        invariant
            i <= candidates@.len(),
            all == candidates.deep_view(),
            all == poster_names(stem@),
            folder.deep_view() == Some(found.deep_view()),
            first_shown(all, found.deep_view()) == first_shown(all.skip(i as int), found.deep_view()),
        decreases candidates@.len() - i,
    {
        assert(all[i as int] == candidates@[i as int]@);
        assert(all.skip(i as int).drop_first() == all.skip(i + 1));
        let shown = find_shown(found, candidates[i].as_str());
        if shown.is_some() {
            return shown;
        }
        i += 1;
    }
    None
}

/// The poster of the video with the given stem: the first candidate in the
/// poster folder, or else among the images, or else the empty text.
pub fn find_poster(stem: &str, posters: &FoundFiles, images: &FoundFiles) -> (res: String)
    ensures
        res@ == poster_of(stem@, posters.deep_view(), images.deep_view()),
{
    match find_in_folder(posters, stem) {
        Some(shown) => shown,
        None => match find_in_folder(images, stem) {
            Some(shown) => shown,
            None => String::new(),
        },
    }
}

/// The poster of a video, as its path is shown, or the empty text. Its
/// candidates are those that `poster_candidates` gives for the stem of the name.
pub fn find_video_poster(video_name: &str, posters: &FoundFiles, images: &FoundFiles) -> (res: String)
    ensures
        exists|parts: FilePathView|
            #[trigger] names::path_outcome(video_name@, parts) && res@ == poster_of(
                parts.stem_or_empty(),
                posters.deep_view(),
                images.deep_view(),
            ),
        names::portable_path(video_name@) ==> res@ == poster_of(
            names::path_parts(video_name@).stem_or_empty(),
            posters.deep_view(),
            images.deep_view(),
        ),
        names::plain_name(video_name@) ==> res@ == poster_of(
            names::stem_of(video_name@),
            posters.deep_view(),
            images.deep_view(),
        ),
{
    let path = FilePath::of(video_name);
    find_poster(path.stem_or_empty().as_str(), posters, images)
}

/// The name under which the poster of a video with the given stem is saved, if
/// there is anything to save.
pub open spec fn saved_poster(stem: Seq<char>, poster_data: Seq<u8>) -> Option<Seq<char>> {
    if poster_data.len() == 0 || stem.len() == 0 {
        None
    } else {
        Some(stem + "."@ + "jpg"@)
    }
}

/// The name under which the poster of a video with the given stem is saved, if
/// there is anything to save.
pub fn poster_to_save(stem: &str, poster_data: &Vec<u8>) -> (res: Option<String>)
    ensures
        res.deep_view() == saved_poster(stem@, poster_data@),
{
    if poster_data.len() == 0 || stem.is_empty() {
        None
    } else {
        Some(join_extension(stem, "jpg"))
    }
}

/// The name in the poster folder under which `poster_data` is saved as the
/// poster of a video; `None` where there is nothing to save or no stem.
pub fn save_video_poster(video_name: &str, poster_data: &Vec<u8>) -> (res: Option<String>)
    ensures
        poster_data@.len() == 0 ==> res is None,
        exists|parts: FilePathView|
            #[trigger] names::path_outcome(video_name@, parts) && res.deep_view() == saved_poster(
                parts.stem_or_empty(),
                poster_data@,
            ),
        names::portable_path(video_name@) ==> res.deep_view() == saved_poster(
            names::path_parts(video_name@).stem_or_empty(),
            poster_data@,
        ),
        names::plain_name(video_name@) && poster_data@.len() > 0 ==> res.deep_view() == Some(
            names::stem_of(video_name@) + "."@ + "jpg"@,
        ),
{
    let path = FilePath::of(video_name);
    proof {
        if names::plain_name(video_name@) {
            names::stem_is_not_empty(video_name@);
        }
    }
    poster_to_save(path.stem_or_empty().as_str(), poster_data)
}

fn doomed_names(folder_name: &str, folder: &FoundFiles, stem: &str) -> (res: Vec<(String, String)>)
    ensures
        res.deep_view() == doomed_in(folder_name@, folder.deep_view(), stem@),
{
    let mut res: Vec<(String, String)> = Vec::new();
    let found = match folder {
        Some(found) => found,
        None => {
            assert(res.deep_view() == doomed_in(folder_name@, folder.deep_view(), stem@));
            return res;
        },
    };
    let candidates = poster_candidates(stem);
    let ghost all = poster_names(stem@);
    let ghost present = |name: Seq<char>| shown_as(found.deep_view(), name) is Some;
    let ghost place = |name: Seq<char>| (folder_name@, name);
    let mut i: usize = 0;
    proof {
        reveal(Seq::filter);
        assert(all.take(0).filter(present) == Seq::<Seq<char>>::empty());
        assert(res.deep_view() == all.take(0).filter(present).map_values(place));
    }
    while i < candidates.len()
        invariant
            i <= candidates@.len(),
            all == candidates.deep_view(),
            present == (|name: Seq<char>| shown_as(found.deep_view(), name) is Some),
            place == (|name: Seq<char>| (folder_name@, name)),
            res.deep_view() == all.take(i as int).filter(present).map_values(place),
        decreases candidates@.len() - i,
    {
        let ghost before = res.deep_view();
        assert(all[i as int] == candidates@[i as int]@);
        if find_shown(found, candidates[i].as_str()).is_some() {
            res.push((folder_name.to_owned(), candidates[i].clone()));
            assert(res.deep_view() == before.push(place(all[i as int])));
        }
        proof {
            reveal(Seq::filter);
            let kept = all.take(i as int).filter(present);
            assert(all.take(i + 1).drop_last() == all.take(i as int));
            assert(kept.push(all[i as int]).map_values(place) == kept.map_values(place).push(
                place(all[i as int]),
            ));
        }
        i += 1;
    }
    assert(all.take(i as int) == all);
    res
}

/// The posters to remove with the video that has the given stem, in order, each
/// with its folder.
pub fn posters_to_remove(stem: &str, posters: &FoundFiles, images: &FoundFiles) -> (res: Vec<(String, String)>)
    ensures
        res.deep_view() == doomed(stem@, posters.deep_view(), images.deep_view()),
{
    let mut res: Vec<(String, String)> = Vec::new();
    if !stem.is_empty() {
        let mut from_posters = doomed_names(POSTER_FOLDER, posters, stem);
        let mut from_images = doomed_names(IMAGE_FOLDER, images, stem);
        let ghost left = from_posters.deep_view();
        let ghost right = from_images.deep_view();
        from_posters.append(&mut from_images);
        assert(from_posters.deep_view() == left + right);
        res = from_posters;
    }
    assert(stem@.len() == 0 ==> res.deep_view() == doomed(stem@, posters.deep_view(), images.deep_view()));
    res
}

/// The posters to remove with a video, in order, each with its folder.
pub fn delete_video_posters(
    file_name: &str,
    posters: &FoundFiles,
    images: &FoundFiles,
) -> (res: Vec<(String, String)>)
    ensures
        exists|parts: FilePathView|
            #[trigger] names::path_outcome(file_name@, parts) && res.deep_view() == doomed(
                parts.stem_or_empty(),
                posters.deep_view(),
                images.deep_view(),
            ),
        names::portable_path(file_name@) ==> res.deep_view() == doomed(
            names::path_parts(file_name@).stem_or_empty(),
            posters.deep_view(),
            images.deep_view(),
        ),
        names::plain_name(file_name@) ==> res.deep_view() == doomed(
            names::stem_of(file_name@),
            posters.deep_view(),
            images.deep_view(),
        ),
{
    let path = FilePath::of(file_name);
    posters_to_remove(path.stem_or_empty().as_str(), posters, images)
}

/// What is left of a folder when the posters that go with a video are removed.
pub open spec fn without_posters(
    folder_name: Seq<char>,
    found: Seq<(Seq<char>, Seq<char>)>,
    stem: Seq<char>,
) -> Seq<(Seq<char>, Seq<char>)> {
    let gone = doomed_in(folder_name, Some(found), stem);
    found.filter(|file: (Seq<char>, Seq<char>)| !gone.contains((folder_name, file.0)))
}

/// A filtered sequence holds nothing that the sequence does not hold.
proof fn lemma_filter_is_part<A>(all: Seq<A>, keep: spec_fn(A) -> bool)
    ensures
        forall|i: int| 0 <= i < all.filter(keep).len() ==> all.contains(#[trigger] all.filter(keep)[i]),
    decreases all.len(),
{
    reveal(Seq::filter);
    if all.len() > 0 {
        let rest = all.drop_last();
        lemma_filter_is_part(rest, keep);
        assert forall|i: int| 0 <= i < all.filter(keep).len() implies all.contains(
            #[trigger] all.filter(keep)[i],
        ) by {
            if i < rest.filter(keep).len() {
                assert(rest.contains(rest.filter(keep)[i]));
                let j = choose|j: int| 0 <= j < rest.len() && rest[j] == rest.filter(keep)[i];
                assert(all[j] == all.filter(keep)[i]);
            } else {
                assert(all[all.len() - 1] == all.filter(keep)[i]);
            }
        }
    }
}

proof fn lemma_shown_as(found: Seq<(Seq<char>, Seq<char>)>, name: Seq<char>)
    ensures
        shown_as(found, name) is Some <==> exists|i: int| 0 <= i < found.len() && #[trigger] found[i].0 == name,
    decreases found.len(),
{
    if found.len() > 0 {
        let rest = found.drop_first();
        lemma_shown_as(rest, name);
        if found[0].0 != name {
            if shown_as(found, name) is Some {
                let i = choose|i: int| 0 <= i < rest.len() && #[trigger] rest[i].0 == name;
                assert(found[i + 1].0 == name);
            }
            if exists|i: int| 0 <= i < found.len() && #[trigger] found[i].0 == name {
                let i = choose|i: int| 0 <= i < found.len() && #[trigger] found[i].0 == name;
                assert(rest[i - 1].0 == name);
            }
        }
    }
}

proof fn lemma_first_shown_none(names: Seq<Seq<char>>, found: Seq<(Seq<char>, Seq<char>)>)
    requires
        forall|i: int| 0 <= i < names.len() ==> shown_as(found, #[trigger] names[i]) is None,
    ensures
        first_shown(names, found) is None,
    decreases names.len(),
{
    if names.len() > 0 {
        assert(shown_as(found, names[0]) is None);
        let rest = names.drop_first();
        assert forall|i: int| 0 <= i < rest.len() implies shown_as(found, #[trigger] rest[i]) is None by {
            assert(rest[i] == names[i + 1]);
        }
        lemma_first_shown_none(rest, found);
    }
}

/// A poster is removed with its video exactly if it was found under one of the
/// names a poster of that video can have.
pub proof fn doomed_are_the_found_posters(
    folder_name: Seq<char>,
    found: Seq<(Seq<char>, Seq<char>)>,
    stem: Seq<char>,
    name: Seq<char>,
)
    ensures
        doomed_in(folder_name, Some(found), stem).contains((folder_name, name)) <==> poster_names(stem).contains(name)
            && exists|i: int| 0 <= i < found.len() && #[trigger] found[i].0 == name,
{
    let all = poster_names(stem);
    let present = |n: Seq<char>| shown_as(found, n) is Some;
    let gone = doomed_in(folder_name, Some(found), stem);
    lemma_shown_as(found, name);
    lemma_filter_is_part(all, present);
    let kept = all.filter(present);
    assert(kept == found_among(all, found));
    if gone.contains((folder_name, name)) {
        let i = choose|i: int| 0 <= i < gone.len() && gone[i] == (folder_name, name);
        assert(kept[i] == name);
        assert(present(kept[i]) && all.contains(kept[i]));
    }
    if all.contains(name) && present(name) {
        let j = choose|j: int| 0 <= j < all.len() && all[j] == name;
        assert(kept.contains(all[j]));
        let i = choose|i: int| 0 <= i < kept.len() && kept[i] == name;
        assert(gone[i] == (folder_name, name));
    }
}

/// Once the posters of a video are removed from both folders, it has none.
pub proof fn no_poster_after_removal(
    stem: Seq<char>,
    posters: Seq<(Seq<char>, Seq<char>)>,
    images: Seq<(Seq<char>, Seq<char>)>,
)
    ensures
        poster_of(
            stem,
            Some(without_posters("posters"@, posters, stem)),
            Some(without_posters("images"@, images, stem)),
        ) == Seq::<char>::empty(),
{
    lemma_none_left("posters"@, posters, stem);
    lemma_none_left("images"@, images, stem);
}

proof fn lemma_none_left(folder_name: Seq<char>, found: Seq<(Seq<char>, Seq<char>)>, stem: Seq<char>)
    ensures
        first_shown(poster_names(stem), without_posters(folder_name, found, stem)) is None,
{
    let all = poster_names(stem);
    let gone = doomed_in(folder_name, Some(found), stem);
    let keep = |file: (Seq<char>, Seq<char>)| !gone.contains((folder_name, file.0));
    let left = without_posters(folder_name, found, stem);
    assert(left == found.filter(keep));
    lemma_filter_is_part(found, keep);
    assert forall|i: int| 0 <= i < all.len() implies shown_as(left, #[trigger] all[i]) is None by {
        lemma_shown_as(left, all[i]);
        if exists|j: int| 0 <= j < left.len() && #[trigger] left[j].0 == all[i] {
            let j = choose|j: int| 0 <= j < left.len() && #[trigger] left[j].0 == all[i];
            assert(keep(left[j]));
            assert(found.contains(left[j]));
            let k = choose|k: int| 0 <= k < found.len() && found[k] == left[j];
            assert(found[k].0 == all[i]);
            doomed_are_the_found_posters(folder_name, found, stem, all[i]);
        }
    }
    lemma_first_shown_none(all, left);
}

/// A poster that was saved for a video is the one that is found for it.
pub proof fn saved_poster_is_found(
    stem: Seq<char>,
    found: Seq<(Seq<char>, Seq<char>)>,
    shown: Seq<char>,
    images: Option<Seq<(Seq<char>, Seq<char>)>>,
)
    requires
        shown_as(found, stem + "."@ + "jpg"@) == Some(shown),
    ensures
        poster_of(stem, Some(found), images) == shown,
{
    assert(poster_names(stem)[0] == stem + "."@ + "jpg"@);
}

proof fn lemma_shown_first(found: Seq<(Seq<char>, Seq<char>)>, i: int)
    requires
        0 <= i < found.len(),
        forall|j: int| 0 <= j < i ==> (#[trigger] found[j]).0 != found[i].0,
    ensures
        shown_as(found, found[i].0) == Some(found[i].1),
    decreases i,
{
    if i > 0 {
        let rest = found.drop_first();
        assert(found[0].0 != found[i].0);
        assert forall|j: int| 0 <= j < i - 1 implies (#[trigger] rest[j]).0 != rest[i - 1].0 by {
            assert(found[j + 1].0 != found[i].0);
        }
        lemma_shown_first(rest, i - 1);
    }
}

proof fn lemma_first_shown(names: Seq<Seq<char>>, found: Seq<(Seq<char>, Seq<char>)>, k: int)
    requires
        0 <= k < names.len(),
        shown_as(found, names[k]) is Some,
        forall|j: int| 0 <= j < k ==> shown_as(found, #[trigger] names[j]) is None,
    ensures
        first_shown(names, found) == shown_as(found, names[k]),
    decreases k,
{
    if k > 0 {
        assert(shown_as(found, names[0]) is None);
        let rest = names.drop_first();
        assert forall|j: int| 0 <= j < k - 1 implies shown_as(found, #[trigger] rest[j]) is None by {
            assert(rest[j] == names[j + 1]);
        }
        lemma_first_shown(rest, found, k - 1);
    }
}

/// The names of posters, by how they end.
proof fn lemma_poster_names(stem: Seq<char>)
    ensures
        ({
            let endings = seq![".jpg"@, ".jpeg"@, ".png"@, ".gif"@, ".webp"@, ".bmp"@];
            &&& poster_names(stem).len() == 6
            &&& forall|k: int| 0 <= k < 6 ==> #[trigger] poster_names(stem)[k] == stem + endings[k]
        }),
{
    reveal_strlit(".");
    reveal_strlit("jpg");
    reveal_strlit("jpeg");
    reveal_strlit("png");
    reveal_strlit("gif");
    reveal_strlit("webp");
    reveal_strlit("bmp");
    reveal_strlit(".jpg");
    reveal_strlit(".jpeg");
    reveal_strlit(".png");
    reveal_strlit(".gif");
    reveal_strlit(".webp");
    reveal_strlit(".bmp");
    assert("."@ + "jpg"@ == ".jpg"@);
    assert("."@ + "jpeg"@ == ".jpeg"@);
    assert("."@ + "png"@ == ".png"@);
    assert("."@ + "gif"@ == ".gif"@);
    assert("."@ + "webp"@ == ".webp"@);
    assert("."@ + "bmp"@ == ".bmp"@);
    let endings = seq![".jpg"@, ".jpeg"@, ".png"@, ".gif"@, ".webp"@, ".bmp"@];
    assert forall|k: int| 0 <= k < 6 implies #[trigger] poster_names(stem)[k] == stem + endings[k] by {
        let extension = poster_extensions()[k];
        assert(stem + "."@ + extension == stem + ("."@ + extension));
        assert("."@ + extension == endings[k]);
    }
}

/// Which poster a video has: the file in the poster folder that is called like the
/// video and ends in .jpg, or else .jpeg, .png, .gif, .webp or .bmp, in that order;
/// or else such a file among the images, in the same order; or else none.
pub proof fn poster_is_the_first_candidate(
    stem: Seq<char>,
    posters: Option<Seq<(Seq<char>, Seq<char>)>>,
    images: Option<Seq<(Seq<char>, Seq<char>)>>,
    k: int,
    i: int,
)
    requires
        0 <= k < 6,
    ensures
        ({
            let endings = seq![".jpg"@, ".jpeg"@, ".png"@, ".gif"@, ".webp"@, ".bmp"@];
            let holds = |folder: Option<Seq<(Seq<char>, Seq<char>)>>, name: Seq<char>|
                folder matches Some(files) && exists|j: int| 0 <= j < files.len() && (#[trigger] files[j]).0 == name;
            // The `i`-th file is the first one with the `k`-th ending, and none has an earlier ending.
            let chosen = |folder: Option<Seq<(Seq<char>, Seq<char>)>>|
                {
                    &&& folder matches Some(files)
                    &&& 0 <= i < files.len()
                    &&& files[i].0 == stem + endings[k]
                    &&& forall|j: int| 0 <= j < i ==> (#[trigger] files[j]).0 != stem + endings[k]
                    &&& forall|l: int| 0 <= l < k ==> !holds(folder, stem + #[trigger] endings[l])
                };
            let none = |folder: Option<Seq<(Seq<char>, Seq<char>)>>|
                forall|l: int| 0 <= l < 6 ==> !holds(folder, stem + #[trigger] endings[l]);
            &&& chosen(posters) ==> poster_of(stem, posters, images) == posters.unwrap()[i].1
            &&& none(posters) && chosen(images) ==> poster_of(stem, posters, images) == images.unwrap()[i].1
            &&& none(posters) && none(images) ==> poster_of(stem, posters, images).len() == 0
        }),
{
    let endings = seq![".jpg"@, ".jpeg"@, ".png"@, ".gif"@, ".webp"@, ".bmp"@];
    let names = poster_names(stem);
    lemma_poster_names(stem);
    let holds = |folder: Option<Seq<(Seq<char>, Seq<char>)>>, name: Seq<char>|
        folder matches Some(files) && exists|j: int| 0 <= j < files.len() && (#[trigger] files[j]).0 == name;
    let chosen = |folder: Option<Seq<(Seq<char>, Seq<char>)>>|
        {
            &&& folder matches Some(files)
            &&& 0 <= i < files.len()
            &&& files[i].0 == stem + endings[k]
            &&& forall|j: int| 0 <= j < i ==> (#[trigger] files[j]).0 != stem + endings[k]
            &&& forall|l: int| 0 <= l < k ==> !holds(folder, stem + #[trigger] endings[l])
        };
    let none = |folder: Option<Seq<(Seq<char>, Seq<char>)>>|
        forall|l: int| 0 <= l < 6 ==> !holds(folder, stem + #[trigger] endings[l]);
    assert forall|folder: Option<Seq<(Seq<char>, Seq<char>)>>| #[trigger] chosen(folder) implies poster_in(folder, stem)
        == Some(folder.unwrap()[i].1) by {
        let files = folder.unwrap();
        assert(files[i].0 == names[k]);
        lemma_shown_first(files, i);
        assert forall|l: int| 0 <= l < k implies shown_as(files, #[trigger] names[l]) is None by {
            lemma_shown_as(files, names[l]);
            assert(!holds(folder, stem + endings[l]));
        }
        lemma_first_shown(names, files, k);
    }
    assert forall|folder: Option<Seq<(Seq<char>, Seq<char>)>>| #[trigger] none(folder) implies poster_in(
        folder,
        stem,
    ) is None by {
        if let Some(files) = folder {
            assert forall|l: int| 0 <= l < names.len() implies shown_as(files, #[trigger] names[l]) is None by {
                lemma_shown_as(files, names[l]);
                assert(!holds(folder, stem + endings[l]));
            }
            lemma_first_shown_none(names, files);
        }
    }
}

/// What goes with a video: every file in the poster folder and among the images that
/// is called like it and ends in .jpg, .jpeg, .png, .gif, .webp or .bmp, each once,
/// those in the poster folder first, and nothing else; nothing at all where the video
/// has no stem.
pub proof fn posters_that_go_with_a_video(
    stem: Seq<char>,
    posters: Option<Seq<(Seq<char>, Seq<char>)>>,
    images: Option<Seq<(Seq<char>, Seq<char>)>>,
    folder: Seq<char>,
    name: Seq<char>,
)
    ensures
        ({
            let holds = |files: Option<Seq<(Seq<char>, Seq<char>)>>|
                files matches Some(files) && exists|j: int| 0 <= j < files.len() && (#[trigger] files[j]).0 == name;
            doomed(stem, posters, images).contains((folder, name)) <==> {
                &&& stem.len() > 0
                &&& name == stem + ".jpg"@ || name == stem + ".jpeg"@ || name == stem + ".png"@ || name == stem
                    + ".gif"@ || name == stem + ".webp"@ || name == stem + ".bmp"@
                &&& (folder == "posters"@ && holds(posters)) || (folder == "images"@ && holds(images))
            }
        }),
        doomed(stem, posters, images).no_duplicates(),
        forall|i: int, j: int|
            0 <= i < j < doomed(stem, posters, images).len() && (#[trigger] doomed(stem, posters, images)[j]).0
                == "posters"@ ==> (#[trigger] doomed(stem, posters, images)[i]).0 == "posters"@,
{
    let endings = seq![".jpg"@, ".jpeg"@, ".png"@, ".gif"@, ".webp"@, ".bmp"@];
    let names = poster_names(stem);
    lemma_poster_names(stem);
    assert(names.contains(name) <==> exists|k: int| 0 <= k < 6 && name == stem + #[trigger] endings[k]) by {
        if names.contains(name) {
            let k = choose|k: int| 0 <= k < names.len() && names[k] == name;
            assert(name == stem + endings[k]);
        }
        if exists|k: int| 0 <= k < 6 && name == stem + #[trigger] endings[k] {
            let k = choose|k: int| 0 <= k < 6 && name == stem + #[trigger] endings[k];
            assert(names[k] == name);
        }
    }
    assert(endings[0] == ".jpg"@ && endings[1] == ".jpeg"@ && endings[2] == ".png"@ && endings[3] == ".gif"@
        && endings[4] == ".webp"@ && endings[5] == ".bmp"@);
    let left = doomed_in("posters"@, posters, stem);
    let right = doomed_in("images"@, images, stem);
    lemma_doomed_folder("posters"@, posters, stem);
    lemma_doomed_folder("images"@, images, stem);
    if posters is Some {
        doomed_are_the_found_posters("posters"@, posters.unwrap(), stem, name);
    }
    if images is Some {
        doomed_are_the_found_posters("images"@, images.unwrap(), stem, name);
    }
    reveal_strlit("posters");
    reveal_strlit("images");
    assert("posters"@[0] == 'p' && "images"@[0] == 'i');
    if stem.len() > 0 {
        let all = left + right;
        assert(all == doomed(stem, posters, images));
        if all.contains((folder, name)) {
            let i = choose|i: int| 0 <= i < all.len() && all[i] == (folder, name);
            if i < left.len() {
                assert(left[i] == (folder, name));
                assert(left.contains(("posters"@, name)));
            } else {
                assert(right[i - left.len()] == (folder, name));
                assert(right.contains(("images"@, name)));
            }
        }
        if folder == "posters"@ && left.contains((folder, name)) {
            let i = choose|i: int| 0 <= i < left.len() && left[i] == (folder, name);
            assert(all[i] == (folder, name));
        }
        if folder == "images"@ && right.contains((folder, name)) {
            let i = choose|i: int| 0 <= i < right.len() && right[i] == (folder, name);
            assert(all[left.len() + i] == (folder, name));
        }
        assert forall|i: int, j: int| 0 <= i < j < all.len() && (#[trigger] all[j]).0 == "posters"@ implies (
        #[trigger] all[i]).0 == "posters"@ by {
            if j >= left.len() {
                assert(right[j - left.len()].0 == "images"@);
            }
            assert(left[i].0 == "posters"@);
        }
        assert forall|i: int, j: int| 0 <= i < all.len() && 0 <= j < all.len() && i != j implies all[i] != all[j] by {
            if i < left.len() && j < left.len() {
                assert(left[i] != left[j]);
            } else if i >= left.len() && j >= left.len() {
                assert(right[i - left.len()] != right[j - left.len()]);
            } else if i < left.len() {
                assert(left[i].0 != right[j - left.len()].0);
            } else {
                assert(left[j].0 != right[i - left.len()].0);
            }
        }
    }
}

proof fn lemma_filter_keeps_distinct<A>(all: Seq<A>, keep: spec_fn(A) -> bool)
    requires
        all.no_duplicates(),
    ensures
        all.filter(keep).no_duplicates(),
    decreases all.len(),
{
    reveal(Seq::filter);
    if all.len() > 0 {
        let rest = all.drop_last();
        let kept = rest.filter(keep);
        lemma_filter_keeps_distinct(rest, keep);
        lemma_filter_is_part(rest, keep);
        assert forall|i: int| 0 <= i < kept.len() implies #[trigger] kept[i] != all[all.len() - 1] by {
            assert(rest.contains(kept[i]));
            let j = choose|j: int| 0 <= j < rest.len() && rest[j] == kept[i];
            assert(all[j] == kept[i]);
        }
    }
}

proof fn lemma_doomed_folder(
    folder_name: Seq<char>,
    folder: Option<Seq<(Seq<char>, Seq<char>)>>,
    stem: Seq<char>,
)
    ensures
        doomed_in(folder_name, folder, stem).no_duplicates(),
        forall|i: int|
            0 <= i < doomed_in(folder_name, folder, stem).len() ==> (#[trigger] doomed_in(folder_name, folder, stem)[i]).0
                == folder_name,
{
    if let Some(found) = folder {
        let names = poster_names(stem);
        let present = |name: Seq<char>| shown_as(found, name) is Some;
        lemma_poster_names_distinct(stem);
        lemma_filter_keeps_distinct(names, present);
        let kept = found_among(names, found);
        assert(kept == names.filter(present));
        let gone = doomed_in(folder_name, folder, stem);
        assert forall|i: int, j: int| 0 <= i < gone.len() && 0 <= j < gone.len() && i != j implies gone[i] != gone[j] by {
            assert(kept[i] != kept[j]);
        }
    }
}

proof fn lemma_poster_names_distinct(stem: Seq<char>)
    ensures
        poster_names(stem).no_duplicates(),
{
    let endings = seq![".jpg"@, ".jpeg"@, ".png"@, ".gif"@, ".webp"@, ".bmp"@];
    let names = poster_names(stem);
    lemma_poster_names(stem);
    reveal_strlit(".jpg");
    reveal_strlit(".jpeg");
    reveal_strlit(".png");
    reveal_strlit(".gif");
    reveal_strlit(".webp");
    reveal_strlit(".bmp");
    let n = stem.len() as int;
    assert(names[0].len() == n + 4 && names[0][n + 1] == 'j');
    assert(names[1].len() == n + 5 && names[1][n + 1] == 'j');
    assert(names[2].len() == n + 4 && names[2][n + 1] == 'p');
    assert(names[3].len() == n + 4 && names[3][n + 1] == 'g');
    assert(names[4].len() == n + 5 && names[4][n + 1] == 'w');
    assert(names[5].len() == n + 4 && names[5][n + 1] == 'b');
}

/// A poster is saved exactly if there is data and the video has a stem, and then
/// under the stem with the ending .jpg.
pub proof fn posters_are_saved_as_jpg(stem: Seq<char>, poster_data: Seq<u8>)
    ensures
        saved_poster(stem, poster_data) == if stem.len() > 0 && poster_data.len() > 0 {
            Some(stem + ".jpg"@)
        } else {
            None
        },
{
    lemma_poster_names(stem);
    assert(poster_names(stem)[0] == stem + "."@ + "jpg"@);
}

} // verus!

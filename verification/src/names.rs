//! File names: the parts of a name, safe names for uploads and names that are
//! not taken yet.
use vstd::prelude::*;

use crate::text;
use crate::text::{chars_of, contains_text, decimal_text, text_of, trim};

verus! {

/// What the library reads of a path: the file name, the stem and the
/// extension. A part is `None` where the path has none or where it is not
/// valid Unicode.
pub struct FilePath {
    pub name: Option<String>,
    pub stem: Option<String>,
    pub extension: Option<String>,
}

/// The parts of a path as sequences of characters.
pub struct FilePathView {
    pub name: Option<Seq<char>>,
    pub stem: Option<Seq<char>>,
    pub extension: Option<Seq<char>>,
}

impl View for FilePath {
    type V = FilePathView;

    open spec fn view(&self) -> FilePathView {
        FilePathView {
            name: self.name.deep_view(),
            stem: self.stem.deep_view(),
            extension: self.extension.deep_view(),
        }
    }
}

impl FilePathView {
    /// The file name, or the empty text.
    pub open spec fn name_or_empty(self) -> Seq<char> {
        match self.name {
            Some(name) => name,
            None => Seq::empty(),
        }
    }

    /// The stem, or the empty text.
    pub open spec fn stem_or_empty(self) -> Seq<char> {
        match self.stem {
            Some(stem) => stem,
            None => Seq::empty(),
        }
    }

    /// The extension, or the empty text.
    pub open spec fn extension_or_empty(self) -> Seq<char> {
        match self.extension {
            Some(extension) => extension,
            None => Seq::empty(),
        }
    }
}

/// The index of the last dot of `name`, or -1.
pub open spec fn last_dot(name: Seq<char>) -> int
    decreases name.len(),
{
    if name.len() == 0 {
        -1
    } else if name.last() == '.' {
        name.len() - 1
    } else {
        last_dot(name.drop_last())
    }
}

/// The part of a file name before its last dot; the whole name where there is
/// no dot but a leading one.
pub open spec fn stem_of(name: Seq<char>) -> Seq<char> {
    if last_dot(name) <= 0 {
        name
    } else {
        name.take(last_dot(name))
    }
}

/// The part of a file name after its last dot; none where there is no dot but
/// a leading one.
pub open spec fn extension_of(name: Seq<char>) -> Option<Seq<char>> {
    if last_dot(name) <= 0 {
        None
    } else {
        Some(name.skip(last_dot(name) + 1))
    }
}

/// The parts of a path whose file name is `name`.
pub open spec fn parts_of(name: Option<Seq<char>>) -> FilePathView {
    match name {
        Some(name) => FilePathView {
            name: Some(name),
            stem: Some(stem_of(name)),
            extension: extension_of(name),
        },
        None => FilePathView { name: None, stem: None, extension: None },
    }
}

/// Whether `path` begins with a letter and a colon, which some platforms take for a
/// drive.
pub open spec fn begins_with_drive(path: Seq<char>) -> bool {
    path.len() >= 2 && path[1] == ':' && ('A' <= path[0] <= 'Z' || 'a' <= path[0] <= 'z')
}

/// Whether `path` begins with two slashes or backslashes, which some platforms take
/// for the beginning of a server.
pub open spec fn begins_with_server(path: Seq<char>) -> bool {
    path.len() >= 2 && is_separator(path[0], true) && is_separator(path[1], true)
}

/// A name that is a single path component on every platform.
pub open spec fn plain_name(name: Seq<char>) -> bool {
    &&& name.len() > 0
    &&& name != "."@
    &&& name != ".."@
    &&& !begins_with_drive(name)
    &&& forall|i: int| 0 <= i < name.len() ==> #[trigger] name[i] != '/' && name[i] != '\\'
}

/// Whether `part` stands somewhere in `whole`.
pub open spec fn occurs_in(part: Seq<char>, whole: Seq<char>) -> bool {
    exists|from: int| 0 <= from && from + part.len() <= whole.len() && part == #[trigger] whole.subrange(
        from,
        from + part.len(),
    )
}

/// Whether `c` separates the components of a path: a slash everywhere, a backslash
/// where `backslash` says so.
pub open spec fn is_separator(c: char, backslash: bool) -> bool {
    c == '/' || (backslash && c == '\\')
}

/// The index of the last separator of `path`, or -1.
pub open spec fn last_separator(path: Seq<char>, backslash: bool) -> int
    decreases path.len(),
{
    if path.len() == 0 {
        -1
    } else if is_separator(path.last(), backslash) {
        path.len() - 1
    } else {
        last_separator(path.drop_last(), backslash)
    }
}

/// The last separator of a path is one, and none follows it.
proof fn lemma_last_separator(path: Seq<char>, backslash: bool)
    ensures
        -1 <= last_separator(path, backslash) < path.len(),
        last_separator(path, backslash) >= 0 ==> is_separator(path[last_separator(path, backslash)], backslash),
        forall|i: int|
            last_separator(path, backslash) < i < path.len() ==> !is_separator(#[trigger] path[i], backslash),
    decreases path.len(),
{
    if path.len() > 0 && !is_separator(path.last(), backslash) {
        lemma_last_separator(path.drop_last(), backslash);
        assert forall|i: int| last_separator(path, backslash) < i < path.len() implies !is_separator(
            #[trigger] path[i],
            backslash,
        ) by {
            if i < path.len() - 1 {
                assert(path[i] == path.drop_last()[i]);
            }
        }
    }
}

/// The final component of `path`: its last part between separators that is neither
/// empty nor a single dot. There is none where no such part is, or where it is a
/// double dot.
pub open spec fn final_component(path: Seq<char>, backslash: bool) -> Option<Seq<char>>
    decreases path.len(),
{
    let at = last_separator(path, backslash);
    let part = path.skip(at + 1);
    if part.len() > 0 && part != "."@ {
        if part == ".."@ {
            None
        } else {
            Some(part)
        }
    } else if 0 <= at < path.len() {
        final_component(path.take(at), backslash)
    } else {
        None
    }
}

/// A path that is read alike on every platform: it begins with no drive and no
/// server, and its components are separated by slashes.
pub open spec fn portable_path(path: Seq<char>) -> bool {
    &&& !begins_with_drive(path)
    &&& !begins_with_server(path)
    &&& forall|i: int| 0 <= i < path.len() ==> #[trigger] path[i] != '\\'
}

/// The file name of a portable path.
pub open spec fn file_name_of(path: Seq<char>) -> Option<Seq<char>> {
    final_component(path, false)
}

/// The parts of a portable path.
pub open spec fn path_parts(path: Seq<char>) -> FilePathView {
    parts_of(file_name_of(path))
}

/// What the platform may take for the file name of `path`: its final component,
/// with slashes for separators or with backslashes too. Where the path begins with
/// a drive, it is the final component of the whole path, or of what follows the
/// drive. Of any path, a file name is a part of it that is not empty.
pub open spec fn file_name_outcome(path: Seq<char>, name: Option<Seq<char>>) -> bool {
    &&& !begins_with_drive(path) && !begins_with_server(path) ==> name == final_component(path, false) || name
        == final_component(path, true)
    &&& begins_with_drive(path) ==> name == final_component(path, false) || name == final_component(
        path.skip(2),
        true,
    )
    &&& name matches Some(n) ==> n.len() > 0 && occurs_in(n, path)
}

/// What the platform may take for the parts of `path`.
pub open spec fn path_outcome(path: Seq<char>, parts: FilePathView) -> bool {
    exists|name: Option<Seq<char>>| #[trigger] file_name_outcome(path, name) && parts == parts_of(name)
}

/// `std::path::Path::file_name`: the final component of a path, if there is one
/// and it is a name. Repeated and trailing separators are ignored, and so are
/// single dots; a path that ends in a double dot has no file name. Unix separates
/// components by slashes, Windows by slashes and backslashes, so the contract
/// leaves open which of the two is meant. Windows also reads a letter and a colon
/// at the beginning of a path as a drive, which is no part of a component. Two
/// separators at the beginning it reads as the beginning of a server or a device,
/// in several forms; of such a path the contract says only that the file name is
/// a part of it.
#[verifier::external_body]
fn path_file_name(path: &str) -> (name: Option<String>)
    ensures
        file_name_outcome(path@, name.deep_view()),
{
    std::path::Path::new(path).file_name().and_then(|name| name.to_str()).map(|name| name.to_string())
}

/// Without backslashes it does not matter whether they are separators.
proof fn lemma_no_backslash(path: Seq<char>)
    requires
        forall|i: int| 0 <= i < path.len() ==> #[trigger] path[i] != '\\',
    ensures
        last_separator(path, true) == last_separator(path, false),
        final_component(path, true) == final_component(path, false),
    decreases path.len(),
{
    if path.len() > 0 {
        lemma_no_backslash(path.drop_last());
        lemma_last_separator(path, false);
        let at = last_separator(path, false);
        if at >= 0 {
            lemma_no_backslash(path.take(at));
        }
    }
}

/// A portable path has one file name on every platform.
pub proof fn portable_outcome_is_unique(path: Seq<char>, parts: FilePathView)
    requires
        portable_path(path),
        path_outcome(path, parts),
    ensures
        parts == path_parts(path),
{
    lemma_no_backslash(path);
}

/// A plain name is a portable path and its own file name.
pub proof fn plain_is_portable(name: Seq<char>)
    requires
        plain_name(name),
    ensures
        portable_path(name),
        file_name_of(name) == Some(name),
{
    lemma_last_separator(name, false);
    assert(name.skip(0) == name);
}

/// `name` in the folder `folder`.
pub open spec fn in_folder(folder: Seq<char>, name: Seq<char>) -> Seq<char> {
    folder + "/"@ + name
}

/// A file in a folder has its own name for a file name, and slashes after a path
/// change nothing.
pub proof fn file_name_in_folder(folder: Seq<char>, name: Seq<char>)
    requires
        portable_path(folder),
        folder.len() > 0,
        !(folder.len() == 1 && folder[0] == '/'),
        plain_name(name),
    ensures
        portable_path(in_folder(folder, name)),
        file_name_of(in_folder(folder, name)) == Some(name),
        portable_path(folder + "/"@),
        file_name_of(folder + "/"@) == file_name_of(folder),
{
    reveal_strlit("/");
    let path = in_folder(folder, name);
    let dir = folder + "/"@;
    let at = folder.len() as int;
    lemma_last_separator(path, false);
    assert(path[at] == '/');
    if last_separator(path, false) > at {
        let i = last_separator(path, false) - at - 1;
        assert(name[i] == path[last_separator(path, false)]);
    }
    assert(path.skip(at + 1) == name);
    assert forall|i: int| 0 <= i < path.len() implies #[trigger] path[i] != '\\' by {
        if i < at {
            assert(path[i] == folder[i]);
        } else if i > at {
            assert(path[i] == name[i - at - 1]);
        }
    }
    assert forall|i: int| 0 <= i < dir.len() implies #[trigger] dir[i] != '\\' by {
        assert(dir[i] == path[i]);
    }
    assert(path[0] == folder[0] && dir[0] == folder[0]);
    assert(path[1] == if folder.len() >= 2 {
        folder[1]
    } else {
        '/'
    });
    assert(dir[1] == path[1]);
    assert(dir.last() == '/');
    assert(dir.skip(at + 1).len() == 0);
    assert(dir.take(at) == folder);
}

/// The index of the last dot, if there is one.
fn find_last_dot(name: &Vec<char>) -> (res: Option<usize>)
    ensures
        match res {
            Some(i) => i < name@.len() && last_dot(name@) == i,
            None => last_dot(name@) == -1,
        },
{
    let mut i: usize = name.len();
    assert(name@.take(i as int) == name@);
    while i > 0
        invariant
            i <= name@.len(),
            last_dot(name@.take(i as int)) == last_dot(name@),
        decreases i,
    {
        assert(name@.take(i as int).drop_last() == name@.take(i - 1));
        if name[i - 1] == '.' {
            return Some(i - 1);
        }
        i -= 1;
    }
    None
}

impl FilePath {
    /// The parts of a path whose file name is `name`.
    pub fn from_name(name: Option<String>) -> (res: FilePath)
        ensures
            res@ == parts_of(name.deep_view()),
    {
        match name {
            Some(name) => {
                let chars = chars_of(name.as_str());
                let len = chars.len();
                match find_last_dot(&chars) {
                    Some(dot) if dot > 0 => {
                        let stem = text_of(&chars, 0, dot);
                        let extension = text_of(&chars, dot + 1, len);
                        FilePath { name: Some(name), stem: Some(stem), extension: Some(extension) }
                    },
                    _ => FilePath { stem: Some(name.clone()), name: Some(name), extension: None },
                }
            },
            None => FilePath { name: None, stem: None, extension: None },
        }
    }

    /// The parts of `path`.
    pub fn of(path: &str) -> (res: FilePath)
        ensures
            path_outcome(path@, res@),
            portable_path(path@) ==> res@ == path_parts(path@),
            plain_name(path@) ==> res@ == parts_of(Some(path@)),
    {
        let path_name = path_file_name(path);
        proof {
            if portable_path(path@) {
                lemma_no_backslash(path@);
            }
            if plain_name(path@) {
                plain_is_portable(path@);
                lemma_no_backslash(path@);
            }
        }
        FilePath::from_name(path_name)
    }

    /// The stem, or the empty text.
    pub fn stem_or_empty(&self) -> (res: String)
        ensures
            res@ == self@.stem_or_empty(),
    {
        match &self.stem {
            Some(stem) => stem.clone(),
            None => String::new(),
        }
    }

    /// The extension, or the empty text.
    pub fn extension_or_empty(&self) -> (res: String)
        ensures
            res@ == self@.extension_or_empty(),
    {
        match &self.extension {
            Some(extension) => extension.clone(),
            None => String::new(),
        }
    }
}

/// The characters that an upload keeps in its name: ASCII letters and digits,
/// dot, hyphen, underscore and the CJK unified ideographs.
pub open spec fn kept_char(c: char) -> bool {
    ||| '0' <= c <= '9'
    ||| 'A' <= c <= 'Z'
    ||| 'a' <= c <= 'z'
    ||| c == '.'
    ||| c == '-'
    ||| c == '_'
    ||| '\u{4e00}' <= c <= '\u{9fff}'
}

/// `c`, or an underscore in its place.
pub open spec fn cleaned_char(c: char) -> char {
    if kept_char(c) {
        c
    } else {
        '_'
    }
}

/// `name` without the dots it begins with.
pub open spec fn without_leading_dots(name: Seq<char>) -> Seq<char>
    decreases name.len(),
{
    if name.len() > 0 && name.first() == '.' {
        without_leading_dots(name.drop_first())
    } else {
        name
    }
}

/// The name under which an upload called `name` is kept.
pub open spec fn normalized(name: Seq<char>) -> Seq<char> {
    let cleaned = without_leading_dots(text::trimmed(name).map_values(|c: char| cleaned_char(c)));
    if cleaned.len() == 0 {
        "achievement_file"@
    } else {
        cleaned
    }
}

proof fn lemma_without_leading_dots(name: Seq<char>, n: int)
    requires
        0 <= n <= name.len(),
        forall|i: int| 0 <= i < n ==> #[trigger] name[i] == '.',
        n < name.len() ==> name[n] != '.',
    ensures
        without_leading_dots(name) == name.skip(n),
    decreases n,
{
    if n == 0 {
        assert(name.skip(0) == name);
    } else {
        assert(name[0] == '.');
        let rest = name.drop_first();
        assert forall|i: int| 0 <= i < n - 1 implies #[trigger] rest[i] == '.' by {
            assert(rest[i] == name[i + 1]);
        }
        lemma_without_leading_dots(rest, n - 1);
        assert(rest.skip(n - 1) == name.skip(n));
    }
}

/// The name under which an upload is kept: trimmed, with an underscore for
/// every character that is not kept, without leading dots, and never empty.
pub fn normalize_filename(name: &str) -> (res: String)
    ensures
        res@ == normalized(name@),
{
    let given = trim(name);
    let chars = chars_of(given.as_str());
    let mut cleaned: Vec<char> = Vec::new();
    let mut i: usize = 0;
    while i < chars.len()
        invariant
            i <= chars@.len(),
            cleaned@ == chars@.take(i as int).map_values(|c: char| cleaned_char(c)),
        decreases chars@.len() - i,
    {
        let c = chars[i];
        let kept = ('0' <= c && c <= '9') || ('A' <= c && c <= 'Z') || ('a' <= c && c <= 'z') || c == '.'
            || c == '-' || c == '_' || ('\u{4e00}' <= c && c <= '\u{9fff}');
        cleaned.push(
            if kept {
                c
            } else {
                '_'
            },
        );
        i += 1;
        assert(cleaned@ == chars@.take(i as int).map_values(|c: char| cleaned_char(c)));
    }
    assert(chars@.take(i as int) == chars@);
    let mut from: usize = 0;
    while from < cleaned.len() && cleaned[from] == '.'
        invariant
            from <= cleaned@.len(),
            forall|j: int| 0 <= j < from ==> #[trigger] cleaned@[j] == '.',
        decreases cleaned@.len() - from,
    {
        from += 1;
    }
    proof {
        lemma_without_leading_dots(cleaned@, from as int);
        assert(cleaned@.skip(from as int) == cleaned@.subrange(from as int, cleaned@.len() as int));
    }
    if from == cleaned.len() {
        "achievement_file".to_owned()
    } else {
        text_of(&cleaned, from, cleaned.len())
    }
}

/// A name whose characters are all kept, and that does not begin with a dot.
pub open spec fn clean_name(name: Seq<char>) -> bool {
    &&& name.len() > 0
    &&& name[0] != '.'
    &&& forall|i: int| 0 <= i < name.len() ==> kept_char(#[trigger] name[i])
}

proof fn lemma_without_leading_dots_kept(name: Seq<char>)
    requires
        forall|i: int| 0 <= i < name.len() ==> kept_char(#[trigger] name[i]),
    ensures
        without_leading_dots(name).len() > 0 ==> clean_name(without_leading_dots(name)),
    decreases name.len(),
{
    if name.len() > 0 && name.first() == '.' {
        lemma_without_leading_dots_kept(name.drop_first());
    }
}

/// The name of an upload is never empty, holds kept characters only and does
/// not begin with a dot.
pub proof fn normalized_is_clean(name: Seq<char>)
    ensures
        clean_name(normalized(name)),
{
    lemma_without_leading_dots_kept(text::trimmed(name).map_values(|c: char| cleaned_char(c)));
    reveal_strlit("achievement_file");
}

/// A clean name is a single path component on every platform.
pub proof fn clean_is_plain(name: Seq<char>)
    requires
        clean_name(name),
    ensures
        plain_name(name),
{
    reveal_strlit(".");
    reveal_strlit("..");
    assert forall|i: int| 0 <= i < name.len() implies #[trigger] name[i] != '/' && name[i] != '\\' && name[i] != ':' by {
        assert(kept_char(name[i]));
    }
    assert(!begins_with_drive(name));
}

/// A clean name stays as it is.
pub proof fn normalized_keeps_clean(name: Seq<char>)
    requires
        clean_name(name),
    ensures
        normalized(name) == name,
{
    assert(kept_char(name[0]) && kept_char(name[name.len() - 1]));
    text::trimmed_is_identity(name);
    assert(name.map_values(|c: char| cleaned_char(c)) == name);
}

/// Normalizing a name twice is the same as normalizing it once.
pub proof fn normalized_is_idempotent(name: Seq<char>)
    ensures
        normalized(normalized(name)) == normalized(name),
{
    normalized_is_clean(name);
    normalized_keeps_clean(normalized(name));
}

/// The name that replaces a taken one at the `index`-th attempt.
pub open spec fn numbered(stem: Seq<char>, extension: Seq<char>, index: nat) -> Seq<char> {
    if extension.len() == 0 {
        stem + "_"@ + text::decimal(index)
    } else {
        stem + "_"@ + text::decimal(index) + "."@ + extension
    }
}

/// The stem that numbered names are made from.
pub open spec fn numbering_stem(parts: FilePathView) -> Seq<char> {
    match parts.stem {
        Some(stem) => stem,
        None => "achievement_file"@,
    }
}

/// The names that are tried in turn: the name itself, then the numbered ones.
pub open spec fn candidate(filename: Seq<char>, parts: FilePathView, index: nat) -> Seq<char> {
    if index == 0 {
        filename
    } else {
        numbered(numbering_stem(parts), parts.extension_or_empty(), index)
    }
}

/// Whether `name` is the first candidate that is not taken.
pub open spec fn is_first_free(
    filename: Seq<char>,
    parts: FilePathView,
    taken: Seq<Seq<char>>,
    name: Seq<char>,
) -> bool {
    exists|index: nat|
        {
            &&& name == #[trigger] candidate(filename, parts, index)
            &&& !taken.contains(name)
            &&& forall|i: nat| i < index ==> taken.contains(#[trigger] candidate(filename, parts, i))
        }
}

/// The numbered names of a file differ from one another.
pub proof fn numbered_is_injective(stem: Seq<char>, extension: Seq<char>, a: nat, b: nat)
    requires
        numbered(stem, extension, a) == numbered(stem, extension, b),
    ensures
        a == b,
{
    reveal_strlit("_");
    reveal_strlit(".");
    let name_a = numbered(stem, extension, a);
    let name_b = numbered(stem, extension, b);
    let from = stem.len() + 1;
    let tail: int = if extension.len() == 0 {
        0
    } else {
        extension.len() + 1int
    };
    assert(name_a.subrange(from as int, name_a.len() - tail) == text::decimal(a));
    assert(name_b.subrange(from as int, name_b.len() - tail) == text::decimal(b));
    text::decimal_is_injective(a, b);
}

/// If the first `n` numbered names are all taken, at least `n` names are.
proof fn lemma_taken_numbers(stem: Seq<char>, extension: Seq<char>, taken: Seq<Seq<char>>, n: nat)
    requires
        forall|i: nat| 1 <= i <= n ==> taken.contains(#[trigger] numbered(stem, extension, i)),
    ensures
        n <= taken.len(),
{
    let tried = Seq::new(n, |i: int| numbered(stem, extension, (i + 1) as nat));
    assert forall|i: int, j: int| 0 <= i < n && 0 <= j < n && i != j implies tried[i] != tried[j] by {
        if tried[i] == tried[j] {
            numbered_is_injective(stem, extension, (i + 1) as nat, (j + 1) as nat);
        }
    }
    assert(tried.no_duplicates());
    tried.unique_seq_to_set();
    assert(tried.to_set().subset_of(taken.to_set())) by {
        assert forall|name: Seq<char>| tried.to_set().contains(name) implies taken.to_set().contains(name) by {
            let i = choose|i: int| 0 <= i < tried.len() && tried[i] == name;
            assert(taken.contains(numbered(stem, extension, (i + 1) as nat)));
        }
    }
    taken.lemma_cardinality_of_set();
    vstd::set_lib::lemma_len_subset(tried.to_set(), taken.to_set());
}

/// The last dot of a name is a dot, and no dot follows it.
proof fn lemma_last_dot(name: Seq<char>)
    ensures
        -1 <= last_dot(name) < name.len(),
        last_dot(name) >= 0 ==> name[last_dot(name)] == '.',
        forall|i: int| last_dot(name) < i < name.len() ==> #[trigger] name[i] != '.',
    decreases name.len(),
{
    if name.len() > 0 && name.last() != '.' {
        lemma_last_dot(name.drop_last());
        assert forall|i: int| last_dot(name) < i < name.len() implies #[trigger] name[i] != '.' by {
            if i < name.len() - 1 {
                assert(name[i] == name.drop_last()[i]);
            }
        }
    }
}

/// A dot that no dot follows is the last one.
proof fn lemma_is_last_dot(name: Seq<char>, dot: int)
    requires
        0 <= dot < name.len(),
        name[dot] == '.',
        forall|i: int| dot < i < name.len() ==> #[trigger] name[i] != '.',
    ensures
        last_dot(name) == dot,
{
    lemma_last_dot(name);
    if last_dot(name) < dot {
        assert(name[dot] != '.');
    }
}

/// The stem of a name that is not empty is not empty, and the name begins with it.
pub proof fn stem_is_not_empty(name: Seq<char>)
    requires
        name.len() > 0,
    ensures
        stem_of(name).len() > 0,
        stem_of(name).is_prefix_of(name),
{
    lemma_last_dot(name);
}

/// The extension of `stem.extension` is `extension`, and its stem `stem`, where
/// the extension holds no dot and the stem is not empty.
pub proof fn extension_of_joined(stem: Seq<char>, extension: Seq<char>)
    requires
        stem.len() > 0,
        forall|i: int| 0 <= i < extension.len() ==> #[trigger] extension[i] != '.',
    ensures
        extension_of(stem + "."@ + extension) == Some(extension),
        stem_of(stem + "."@ + extension) == stem,
{
    reveal_strlit(".");
    let name = stem + "."@ + extension;
    assert forall|i: int| stem.len() < i < name.len() implies #[trigger] name[i] != '.' by {
        assert(name[i] == extension[i - stem.len() - 1]);
    }
    lemma_is_last_dot(name, stem.len() as int);
    assert(name.skip(stem.len() + 1int) == extension);
    assert(name.take(stem.len() as int) == stem);
}

/// The free name that a clean name leads to is clean and has the same extension.
pub proof fn free_name_keeps_extension(filename: Seq<char>, taken: Seq<Seq<char>>, name: Seq<char>)
    requires
        clean_name(filename),
        extension_of(filename) matches Some(extension) && extension.len() > 0,
        is_first_free(filename, parts_of(Some(filename)), taken, name),
    ensures
        clean_name(name),
        extension_of(name) == extension_of(filename),
{
    let parts = parts_of(Some(filename));
    let index = choose|index: nat| name == #[trigger] candidate(filename, parts, index);
    if index > 0 {
        reveal_strlit("_");
        reveal_strlit(".");
        lemma_last_dot(filename);
        text::decimal_is_digits(index);
        let stem = stem_of(filename);
        let extension = extension_of(filename).unwrap();
        let number = text::decimal(index);
        let numbered_stem = stem + "_"@ + number;
        assert(name == numbered_stem + "."@ + extension);
        extension_of_joined(numbered_stem, extension);
        assert forall|i: int| 0 <= i < name.len() implies kept_char(#[trigger] name[i]) by {
            if i < stem.len() {
                assert(name[i] == filename[i]);
            } else if i == stem.len() {
                assert(name[i] == '_');
            } else if i < numbered_stem.len() {
                assert(name[i] == number[i - stem.len() - 1]);
            } else if i == numbered_stem.len() {
                assert(name[i] == '.');
            } else {
                assert(name[i] == extension[i - numbered_stem.len() - 1]);
                assert(extension[i - numbered_stem.len() - 1] == filename[last_dot(filename) + i
                    - numbered_stem.len()]);
            }
        }
        assert(name[0] == filename[0]);
    }
}

/// The taken names need not all be known from the start: a name that is the first
/// free one as far as is known, and then turns out not to be taken, is the first
/// free one.
pub proof fn probing_finds_the_first_free(
    filename: Seq<char>,
    parts: FilePathView,
    known: Seq<Seq<char>>,
    taken: Seq<Seq<char>>,
    name: Seq<char>,
)
    requires
        is_first_free(filename, parts, known, name),
        forall|other: Seq<char>| known.contains(other) ==> #[trigger] taken.contains(other),
        !taken.contains(name),
    ensures
        is_first_free(filename, parts, taken, name),
{
}

/// `numbered` in executable form.
fn numbered_name(stem: &str, extension: &str, index: u64) -> (res: String)
    ensures
        res@ == numbered(stem@, extension@, index as nat),
{
    let base = stem.to_owned().concat("_").concat(decimal_text(index).as_str());
    if extension.is_empty() {
        base
    } else {
        base.concat(".").concat(extension)
    }
}

/// The first name for a file with the given parts that is not among `taken`.
///
/// There are at most as many numbered names to try as there are taken ones, and one
/// more, which has to fit in the counter.
pub fn first_free_name(filename: &str, parts: &FilePath, taken: &Vec<String>) -> (res: String)
    requires
        taken@.len() < usize::MAX,
    ensures
        is_first_free(filename@, parts@, taken.deep_view(), res@),
{
    if !contains_text(taken, filename) {
        assert(filename@ == candidate(filename@, parts@, 0));
        return filename.to_owned();
    }
    let stem = match &parts.stem {
        Some(stem) => stem.clone(),
        None => "achievement_file".to_owned(),
    };
    let extension = parts.extension_or_empty();
    let mut index: u64 = 1;
    let mut name = numbered_name(stem.as_str(), extension.as_str(), index);
    while contains_text(taken, name.as_str())
        invariant
            taken@.len() < usize::MAX,
            stem@ == numbering_stem(parts@),
            extension@ == parts@.extension_or_empty(),
            1 <= index <= taken@.len() + 1,
            name@ == candidate(filename@, parts@, index as nat),
            forall|i: nat| i < index ==> taken.deep_view().contains(#[trigger] candidate(filename@, parts@, i)),
        decreases taken@.len() + 1 - index,
    {
        proof {
            assert forall|i: nat| 1 <= i <= index implies taken.deep_view().contains(
                #[trigger] numbered(stem@, extension@, i),
            ) by {
                assert(numbered(stem@, extension@, i) == candidate(filename@, parts@, i));
            }
            lemma_taken_numbers(stem@, extension@, taken.deep_view(), index as nat);
        }
        index += 1;
        name = numbered_name(stem.as_str(), extension.as_str(), index);
    }
    name
}

/// The name under which a file called `filename` goes into a folder where the
/// names in `taken` are in use: `filename` itself, or the first of
/// `stem_1.ext`, `stem_2.ext` and so on that is free.
pub fn unique_file_path(filename: &str, taken: &Vec<String>) -> (res: String)
    requires
        taken@.len() < usize::MAX,
    ensures
        exists|parts: FilePathView|
            #[trigger] path_outcome(filename@, parts) && is_first_free(filename@, parts, taken.deep_view(), res@),
        portable_path(filename@) ==> is_first_free(filename@, path_parts(filename@), taken.deep_view(), res@),
        plain_name(filename@) ==> is_first_free(
            filename@,
            parts_of(Some(filename@)),
            taken.deep_view(),
            res@,
        ),
{
    let parts = FilePath::of(filename);
    first_free_name(filename, &parts, taken)
}

/// A file name is its stem, a dot and its extension, where the stem is not empty
/// and the extension holds no dot. It has no extension exactly if no dot follows
/// its first character, and is then its own stem.
pub proof fn stem_and_extension_make_the_name(name: Seq<char>)
    ensures
        match extension_of(name) {
            Some(extension) => {
                &&& name == stem_of(name) + seq!['.'] + extension
                &&& stem_of(name).len() > 0
                &&& !extension.contains('.')
            },
            None => {
                &&& stem_of(name) == name
                &&& forall|i: int| 0 < i < name.len() ==> #[trigger] name[i] != '.'
            },
        },
{
    lemma_last_dot(name);
    let dot = last_dot(name);
    if dot > 0 {
        let extension = name.skip(dot + 1);
        assert(name == name.take(dot) + seq!['.'] + extension);
        if extension.contains('.') {
            let i = choose|i: int| 0 <= i < extension.len() && extension[i] == '.';
            assert(name[dot + 1 + i] == '.');
        }
    }
}

/// A path with a file name has that name, its stem and its extension for parts; a
/// path without one has none. A part that is missing counts as empty.
pub proof fn parts_follow_the_file_name(name: Seq<char>, stem: Seq<char>, extension: Seq<char>)
    requires
        stem.len() > 0,
        !extension.contains('.'),
    ensures
        parts_of(None) == (FilePathView { name: None, stem: None, extension: None }),
        parts_of(None).stem_or_empty().len() == 0,
        parts_of(None).extension_or_empty().len() == 0,
        parts_of(None).name_or_empty().len() == 0,
        ({
            let whole = stem + seq!['.'] + extension;
            &&& parts_of(Some(whole)) == (FilePathView {
                name: Some(whole),
                stem: Some(stem),
                extension: Some(extension),
            })
            &&& parts_of(Some(whole)).name_or_empty() == whole
            &&& parts_of(Some(whole)).stem_or_empty() == stem
            &&& parts_of(Some(whole)).extension_or_empty() == extension
        }),
        (forall|i: int| 0 < i < name.len() ==> #[trigger] name[i] != '.') ==> parts_of(Some(name)) == (FilePathView {
            name: Some(name),
            stem: Some(name),
            extension: None,
        }),
{
    reveal_strlit(".");
    assert("."@ == seq!['.']);
    assert forall|i: int| 0 <= i < extension.len() implies #[trigger] extension[i] != '.' by {
        assert(extension.contains(extension[i]));
    }
    extension_of_joined(stem, extension);
    if forall|i: int| 0 < i < name.len() ==> #[trigger] name[i] != '.' {
        lemma_last_dot(name);
        if last_dot(name) > 0 {
            assert(name[last_dot(name)] != '.');
        }
    }
}

/// A name that is made of ASCII letters and digits, dots, hyphens, underscores and
/// characters with a code from 4E00 to 9FFF, and does not begin with a dot, is kept
/// as it is.
pub proof fn names_of_common_characters_stay(name: Seq<char>)
    requires
        name.len() > 0,
        name[0] as int != 0x2e,
        forall|i: int|
            0 <= i < name.len() ==> {
                let n = #[trigger] name[i] as int;
                0x30 <= n <= 0x39 || 0x41 <= n <= 0x5a || 0x61 <= n <= 0x7a || n == 0x2e || n == 0x2d || n == 0x5f
                    || 0x4e00 <= n <= 0x9fff
            },
    ensures
        normalized(name) == name,
{
    assert forall|i: int| 0 <= i < name.len() implies kept_char(#[trigger] name[i]) by {}
    normalized_keeps_clean(name);
}

/// The name of an upload is its trimmed name from the first character on that is no
/// dot, where every character that is no ASCII letter or digit, dot, hyphen or
/// underscore and has no code from 4E00 to 9FFF is an underscore, and every other
/// one stays in its place. A name that is blank, or nothing but dots, is replaced.
pub proof fn other_characters_become_underscores(name: Seq<char>)
    ensures
        ({
            let given = text::trimmed(name);
            let common = |c: char|
                {
                    let n = c as int;
                    0x30 <= n <= 0x39 || 0x41 <= n <= 0x5a || 0x61 <= n <= 0x7a || n == 0x2e || n == 0x2d || n == 0x5f
                        || 0x4e00 <= n <= 0x9fff
                };
            if forall|i: int| 0 <= i < given.len() ==> #[trigger] given[i] == '.' {
                normalized(name) == "achievement_file"@
            } else {
                exists|dots: int|
                    {
                        &&& 0 <= dots < given.len()
                        &&& #[trigger] given[dots] != '.'
                        &&& forall|i: int| 0 <= i < dots ==> #[trigger] given[i] == '.'
                        &&& normalized(name).len() == given.len() - dots
                        &&& forall|i: int|
                            0 <= i < normalized(name).len() ==> #[trigger] normalized(name)[i] == if common(
                                given[dots + i],
                            ) {
                                given[dots + i]
                            } else {
                                '_'
                            }
                    }
            }
        }),
{
    let given = text::trimmed(name);
    let cleaned = given.map_values(|c: char| cleaned_char(c));
    lemma_dots_skipped(cleaned);
    let dots = cleaned.len() - without_leading_dots(cleaned).len();
    assert forall|i: int| 0 <= i < given.len() implies (cleaned[i] == '.' <==> #[trigger] given[i] == '.') by {}
    if dots < given.len() {
        assert(cleaned[dots] != '.');
        assert(given[dots] != '.');
        assert forall|i: int| 0 <= i < dots implies #[trigger] given[i] == '.' by {
            assert(cleaned[i] == '.');
        }
        assert forall|i: int| 0 <= i < normalized(name).len() implies #[trigger] normalized(name)[i] == cleaned[dots
            + i] by {}
    } else {
        assert forall|i: int| 0 <= i < given.len() implies #[trigger] given[i] == '.' by {
            assert(cleaned[i] == '.');
        }
    }
}

proof fn lemma_dots_skipped(name: Seq<char>)
    ensures
        without_leading_dots(name).len() <= name.len(),
        ({
            let dots = name.len() - without_leading_dots(name).len();
            &&& without_leading_dots(name) == name.skip(dots)
            &&& forall|i: int| 0 <= i < dots ==> #[trigger] name[i] == '.'
            &&& dots < name.len() ==> name[dots] != '.'
        }),
    decreases name.len(),
{
    if name.len() > 0 && name.first() == '.' {
        let rest = name.drop_first();
        lemma_dots_skipped(rest);
        let dots = name.len() - without_leading_dots(name).len();
        assert(name.skip(dots) == rest.skip(dots - 1));
        assert forall|i: int| 0 <= i < dots implies #[trigger] name[i] == '.' by {
            if i > 0 {
                assert(name[i] == rest[i - 1]);
            }
        }
        if dots < name.len() {
            assert(name[dots] == rest[dots - 1]);
        }
    } else {
        assert(name.skip(0) == name);
    }
}

/// A free name is not taken. It is the wanted name where that is free, and else the
/// stem, an underscore, a number from 1 on and the extension, with the smallest
/// number for which that is free. A missing stem is replaced, and an empty
/// extension leaves out its dot.
pub proof fn free_name_is_the_name_or_numbered(
    filename: Seq<char>,
    parts: FilePathView,
    taken: Seq<Seq<char>>,
    name: Seq<char>,
)
    requires
        is_first_free(filename, parts, taken, name),
    ensures
        !taken.contains(name),
        !taken.contains(filename) ==> name == filename,
        taken.contains(filename) ==> ({
            let stem = match parts.stem {
                Some(stem) => stem,
                None => "achievement_file"@,
            };
            let tail = match parts.extension {
                Some(extension) => if extension.len() > 0 {
                    seq!['.'] + extension
                } else {
                    Seq::empty()
                },
                None => Seq::empty(),
            };
            exists|n: nat|
                {
                    &&& n >= 1
                    &&& name == stem + seq!['_'] + #[trigger] text::decimal(n) + tail
                    &&& forall|m: nat|
                        1 <= m < n ==> taken.contains(stem + seq!['_'] + #[trigger] text::decimal(m) + tail)
                }
        }),
{
    reveal_strlit("_");
    reveal_strlit(".");
    assert("_"@ == seq!['_']);
    assert("."@ == seq!['.']);
    let n = choose|n: nat|
        {
            &&& name == #[trigger] candidate(filename, parts, n)
            &&& !taken.contains(name)
            &&& forall|i: nat| i < n ==> taken.contains(#[trigger] candidate(filename, parts, i))
        };
    if !taken.contains(filename) {
        if n > 0 {
            assert(candidate(filename, parts, 0) == filename);
        }
    } else {
        assert(n >= 1);
        let stem = numbering_stem(parts);
        let extension = parts.extension_or_empty();
        let tail = if extension.len() > 0 {
            seq!['.'] + extension
        } else {
            Seq::empty()
        };
        assert forall|m: nat| m >= 1 implies candidate(filename, parts, m) == stem + seq!['_']
            + #[trigger] text::decimal(m) + tail by {
            assert(numbered(stem, extension, m) == stem + seq!['_'] + text::decimal(m) + tail);
        }
        assert forall|m: nat| 1 <= m < n implies taken.contains(
            stem + seq!['_'] + #[trigger] text::decimal(m) + tail,
        ) by {
            assert(taken.contains(candidate(filename, parts, m)));
        }
    }
}

/// The final component of a path, from its end on: a name after a slash, or alone,
/// is the final component; a slash, or a slash and a dot, at the end changes
/// nothing; a path that ends in a double dot, is a dot or is empty has none.
pub proof fn final_components(folder: Seq<char>, name: Seq<char>)
    requires
        name.len() > 0,
        !name.contains('/'),
        name != seq!['.'],
        name != seq!['.', '.'],
    ensures
        file_name_of(name) == Some(name),
        file_name_of(folder + seq!['/'] + name) == Some(name),
        file_name_of(folder + seq!['/']) == file_name_of(folder),
        file_name_of(folder + seq!['/', '.']) == file_name_of(folder),
        file_name_of(folder + seq!['/', '.', '.']) is None,
        file_name_of(seq!['.', '.']) is None,
        file_name_of(seq!['.']) is None,
        file_name_of(Seq::empty()) is None,
{
    reveal_strlit(".");
    reveal_strlit("..");
    assert("."@ == seq!['.']);
    assert(".."@ == seq!['.', '.']);
    lemma_component_at_end(folder, name);
    lemma_component_at_end(folder, Seq::empty());
    lemma_component_at_end(folder, seq!['.']);
    lemma_component_at_end(folder, seq!['.', '.']);
    assert(folder + seq!['/'] + Seq::<char>::empty() == folder + seq!['/']);
    assert(folder + seq!['/'] + seq!['.'] == folder + seq!['/', '.']);
    assert(folder + seq!['/'] + seq!['.', '.'] == folder + seq!['/', '.', '.']);
    let part = Seq::<char>::empty();
    assert(seq!['.', '.'].len() == 2 && seq!['.'].len() == 1 && part.len() == 0);
}

proof fn lemma_component_at_end(folder: Seq<char>, part: Seq<char>)
    requires
        !part.contains('/'),
    ensures
        ({
            let path = folder + seq!['/'] + part;
            &&& last_separator(path, false) == folder.len()
            &&& path.skip(folder.len() + 1int) == part
            &&& path.take(folder.len() as int) == folder
            &&& last_separator(part, false) == -1
            &&& part.skip(0) == part
        }),
{
    let path = folder + seq!['/'] + part;
    let at = folder.len() as int;
    lemma_last_separator(path, false);
    lemma_last_separator(part, false);
    let last = last_separator(path, false);
    assert(path[at] == '/');
    if last > at {
        assert(path[last] == part[last - at - 1]);
        assert(part.contains(part[last - at - 1]));
    }
    if last_separator(part, false) >= 0 {
        assert(part.contains(part[last_separator(part, false)]));
    }
    assert(path.skip(at + 1) == part);
    assert(path.take(at) == folder);
    assert(part.skip(0) == part);
}

/// Every path without a backslash that begins neither with two slashes nor with a
/// letter and a colon is read as its final component says; and every name without
/// slashes and backslashes that is no dot or double dot and does not begin with a
/// letter and a colon is plain.
pub proof fn common_paths_are_read_alike(path: Seq<char>, parts: FilePathView)
    requires
        !path.contains('\\'),
        !(path.len() >= 2 && path[0] == '/' && path[1] == '/'),
        !(path.len() >= 2 && path[1] == ':' && (0x41 <= path[0] as int <= 0x5a || 0x61 <= path[0] as int <= 0x7a)),
    ensures
        portable_path(path),
        path_outcome(path, parts) ==> parts == parts_of(file_name_of(path)),
        path.len() > 0 && !path.contains('/') && path != seq!['.'] && path != seq!['.', '.'] ==> plain_name(path),
{
    reveal_strlit(".");
    reveal_strlit("..");
    assert("."@ == seq!['.']);
    assert(".."@ == seq!['.', '.']);
    assert forall|i: int| 0 <= i < path.len() implies #[trigger] path[i] != '\\' by {
        assert(path.contains(path[i]));
    }
    if !path.contains('/') {
        assert forall|i: int| 0 <= i < path.len() implies #[trigger] path[i] != '/' by {
            assert(path.contains(path[i]));
        }
    }
    if path_outcome(path, parts) {
        portable_outcome_is_unique(path, parts);
    }
}

/// A name of ASCII letters and digits, dots, hyphens, underscores and characters with
/// a code from 4E00 to 9FFF that does not begin with a dot is what cleaning gives for
/// it; and cleaning gives such a name for every name.
pub proof fn cleaning_keeps_common_names(name: &str, res: String)
    requires
        call_ensures(normalize_filename, (name,), res),
    ensures
        ({
            let common = |name: Seq<char>|
                {
                    &&& name.len() > 0
                    &&& name[0] as int != 0x2e
                    &&& forall|i: int|
                        0 <= i < name.len() ==> {
                            let n = #[trigger] name[i] as int;
                            0x30 <= n <= 0x39 || 0x41 <= n <= 0x5a || 0x61 <= n <= 0x7a || n == 0x2e || n == 0x2d || n
                                == 0x5f || 0x4e00 <= n <= 0x9fff
                        }
                };
            &&& common(res@)
            &&& common(name@) ==> res@ == name@
        }),
{
    normalized_is_clean(name@);
    assert forall|i: int| 0 <= i < res@.len() implies kept_char(#[trigger] res@[i]) by {}
    if name@.len() > 0 && name@[0] as int != 0x2e && forall|i: int|
        0 <= i < name@.len() ==> {
            let n = #[trigger] name@[i] as int;
            0x30 <= n <= 0x39 || 0x41 <= n <= 0x5a || 0x61 <= n <= 0x7a || n == 0x2e || n == 0x2d || n == 0x5f || 0x4e00
                <= n <= 0x9fff
        } {
        names_of_common_characters_stay(name@);
    }
}

/// A unique name is never taken. It is the wanted name where that is free; where it is
/// taken, a plain name gets the smallest number from 1 on for which the stem, an
/// underscore, the number and the extension are free.
pub proof fn unique_names_are_free(
    filename: &str,
    taken: &Vec<String>,
    res: String,
    stem: Seq<char>,
    extension: Seq<char>,
)
    requires
        call_ensures(unique_file_path, (filename, taken), res),
        plain_name(filename@),
        stem.len() > 0,
        extension.len() > 0,
        !extension.contains('.'),
        filename@ == stem + seq!['.'] + extension,
    ensures
        !taken.deep_view().contains(res@),
        !taken.deep_view().contains(filename@) ==> res@ == filename@,
        taken.deep_view().contains(filename@) ==> exists|n: nat|
            {
                &&& n >= 1
                &&& res@ == stem + seq!['_'] + #[trigger] text::decimal(n) + (seq!['.'] + extension)
                &&& forall|m: nat|
                    1 <= m < n ==> taken.deep_view().contains(
                        stem + seq!['_'] + #[trigger] text::decimal(m) + (seq!['.'] + extension),
                    )
            },
{
    let parts = parts_of(Some(filename@));
    parts_follow_the_file_name(filename@, stem, extension);
    free_name_is_the_name_or_numbered(filename@, parts, taken.deep_view(), res@);
}

} // verus!

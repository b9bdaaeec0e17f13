//! The file in which the descriptions are kept: a JSON object with one record
//! for each file name.
use vstd::prelude::*;

use crate::meta;
use crate::meta::{AchievementMeta, MetaStore, MetaView};
use crate::text::same_text;

verus! {

/// The name of the file that holds the descriptions.
pub const ACHIEVEMENT_META_FILE: &'static str = "achievement_meta.json";

/// What the library reads of a value in a JSON object: the fields of an object
/// or the items of an array, each with its text where it is a string.
pub enum JsonItem {
    Fields(Vec<(String, Option<String>)>),
    Items(Vec<Option<String>>),
    Other,
}

/// A JSON item as sequences of characters.
pub enum JsonItemView {
    Fields(Seq<(Seq<char>, Option<Seq<char>>)>),
    Items(Seq<Option<Seq<char>>>),
    Other,
}

impl View for JsonItem {
    type V = JsonItemView;

    open spec fn view(&self) -> JsonItemView {
        match self {
            JsonItem::Fields(fields) => JsonItemView::Fields(fields.deep_view()),
            JsonItem::Items(items) => JsonItemView::Items(items.deep_view()),
            JsonItem::Other => JsonItemView::Other,
        }
    }
}

impl DeepView for JsonItem {
    type V = JsonItemView;

    open spec fn deep_view(&self) -> JsonItemView {
        self.view()
    }
}

/// Declares `serde_json::Error`, which is only handed on.
#[verifier::external_type_specification]
#[verifier::external_body]
pub struct ExJsonError(serde_json::Error);

/// The entries of the JSON object that `text` holds, in their order, as
/// `serde_json::from_str` reads them; `None` where `text` is not JSON or not an
/// object.
pub uninterp spec fn json_object(text: Seq<char>) -> Option<Seq<(Seq<char>, JsonItemView)>>;

/// The text that `serde_json::to_string_pretty` makes of an object of objects
/// of strings.
pub uninterp spec fn json_text(records: Seq<(Seq<char>, Seq<(Seq<char>, Seq<char>)>)>) -> Seq<char>;

/// `serde_json::from_str` parses the text as a JSON value. The contract names
/// its result: the entries of the object, if there is one.
#[verifier::external_body]
fn parse_object(text: &str) -> (res: Option<Vec<(String, JsonItem)>>)
    ensures
        res.deep_view() == json_object(text@),
{
    let parsed: Result<serde_json::Value, serde_json::Error> = serde_json::from_str(text);
    let Ok(serde_json::Value::Object(map)) = parsed else { return None };
    let convert = |value: serde_json::Value| match value {
        serde_json::Value::Object(fields) => JsonItem::Fields(
            fields.into_iter().map(|(name, field)| (name, field.as_str().map(str::to_string))).collect()),
        serde_json::Value::Array(items) => JsonItem::Items(
            items.into_iter().map(|item| item.as_str().map(str::to_string)).collect()),
        _ => JsonItem::Other,
    };
    Some(map.into_iter().map(|(key, value)| (key, convert(value))).collect())
}

/// The key that serde_json keeps for itself: with its feature `raw_value`, an
/// object that begins with this key is not read as an object.
pub open spec fn reserved_key(key: Seq<char>) -> bool {
    key == "$serde_json::private::RawValue"@
}

/// Whether the first of some entries has the reserved key.
pub open spec fn begins_reserved<V>(entries: Seq<(Seq<char>, V)>) -> bool {
    entries.len() > 0 && reserved_key(entries[0].0)
}

/// Whether the keys of the records, and those of the fields of each, are distinct
/// and do not begin with the reserved one.
pub open spec fn readable(records: Seq<(Seq<char>, Seq<(Seq<char>, Seq<char>)>)>) -> bool {
    &&& meta::distinct_keys(records)
    &&& !begins_reserved(records)
    &&& forall|i: int|
        0 <= i < records.len() ==> meta::distinct_keys((#[trigger] records[i]).1) && !begins_reserved(records[i].1)
}

/// The fields of a record of strings, as they are read.
pub open spec fn read_fields(fields: Seq<(Seq<char>, Seq<char>)>) -> Seq<(Seq<char>, Option<Seq<char>>)> {
    fields.map_values(|field: (Seq<char>, Seq<char>)| (field.0, Some(field.1)))
}

/// Records of strings, as they are read.
pub open spec fn read_records(
    records: Seq<(Seq<char>, Seq<(Seq<char>, Seq<char>)>)>,
) -> Seq<(Seq<char>, JsonItemView)> {
    records.map_values(
        |record: (Seq<char>, Seq<(Seq<char>, Seq<char>)>)|
            (record.0, JsonItemView::Fields(read_fields(record.1))),
    )
}

/// `serde_json::to_string_pretty` writes a value as JSON text. An object of
/// objects of strings can always be written. The contract names the text, and
/// says that reading it gives the records back, in their order, where the keys of
/// each object are distinct and the first of them is not the reserved one.
#[verifier::external_body]
fn print_object(records: &Vec<(String, Vec<(String, String)>)>) -> (res: Result<String, serde_json::Error>)
    ensures
        res is Ok,
        res matches Ok(text) ==> text@ == json_text(records.deep_view()),
        res matches Ok(text) ==> readable(records.deep_view()) ==> json_object(text@) == Some(
            read_records(records.deep_view()),
        ),
{
    let mut map = serde_json::Map::new();
    for (key, fields) in records {
        let record = fields.iter().map(|(name, text)| (name.clone(), serde_json::Value::String(text.clone())));
        map.insert(key.clone(), serde_json::Value::Object(record.collect()));
    }
    serde_json::to_string_pretty(&serde_json::Value::Object(map))
}

/// The text of the first field called `name`, if it is a string.
pub open spec fn field_text(fields: Seq<(Seq<char>, Option<Seq<char>>)>, name: Seq<char>) -> Option<Seq<char>>
    decreases fields.len(),
{
    if fields.len() == 0 {
        None
    } else if fields[0].0 == name {
        fields[0].1
    } else {
        field_text(fields.drop_first(), name)
    }
}

/// The description that five texts make up; none if one of them is missing.
pub open spec fn meta_of_texts(
    title: Option<Seq<char>>,
    owner: Option<Seq<char>>,
    patent_no: Option<Seq<char>>,
    description: Option<Seq<char>>,
    created_at: Option<Seq<char>>,
) -> Option<MetaView> {
    match (title, owner, patent_no, description, created_at) {
        (Some(title), Some(owner), Some(patent_no), Some(description), Some(created_at)) => Some(
            MetaView { title, owner, patent_no, description, created_at },
        ),
        _ => None,
    }
}

/// The description that a JSON item holds: an object with five fields that are
/// strings, other fields aside, or an array of five strings.
pub open spec fn meta_of_item(item: JsonItemView) -> Option<MetaView> {
    match item {
        JsonItemView::Fields(fields) => meta_of_texts(
            field_text(fields, "title"@),
            field_text(fields, "owner"@),
            field_text(fields, "patentNo"@),
            field_text(fields, "description"@),
            field_text(fields, "createdAt"@),
        ),
        JsonItemView::Items(items) => if items.len() == 5 {
            meta_of_texts(items[0], items[1], items[2], items[3], items[4])
        } else {
            None
        },
        JsonItemView::Other => None,
    }
}

/// The descriptions that the entries of a JSON object hold. Entries that hold
/// none are left out.
pub open spec fn decoded(items: Seq<(Seq<char>, JsonItemView)>) -> Map<Seq<char>, MetaView>
    decreases items.len(),
{
    if items.len() == 0 {
        Map::empty()
    } else {
        match meta_of_item(items.last().1) {
            Some(meta) => decoded(items.drop_last()).insert(items.last().0, meta),
            None => decoded(items.drop_last()),
        }
    }
}

/// The descriptions that a file holds, given its content if it can be read.
pub open spec fn loaded(content: Option<Seq<char>>) -> Map<Seq<char>, MetaView> {
    match content {
        Some(text) => match json_object(text) {
            Some(items) => decoded(items),
            None => Map::empty(),
        },
        None => Map::empty(),
    }
}

/// The fields of a description in the file.
pub open spec fn fields_of(meta: MetaView) -> Seq<(Seq<char>, Seq<char>)> {
    seq![
        ("title"@, meta.title),
        ("owner"@, meta.owner),
        ("patentNo"@, meta.patent_no),
        ("description"@, meta.description),
        ("createdAt"@, meta.created_at),
    ]
}

/// The records of the file.
pub open spec fn encoded(
    entries: Seq<(Seq<char>, MetaView)>,
) -> Seq<(Seq<char>, Seq<(Seq<char>, Seq<char>)>)> {
    entries.map_values(|entry: (Seq<char>, MetaView)| (entry.0, fields_of(entry.1)))
}

/// The text of a field, if it is there and a string.
fn find_field(fields: &Vec<(String, Option<String>)>, name: &str) -> (res: Option<String>)
    ensures
        res.deep_view() == field_text(fields.deep_view(), name@),
{
    let ghost all = fields.deep_view();
    let mut i: usize = 0;
    assert(all.skip(0) == all);
    while i < fields.len()
        invariant
            i <= fields@.len(),
            all == fields.deep_view(),
            field_text(all, name@) == field_text(all.skip(i as int), name@),
        decreases fields@.len() - i,
    {
        assert(all[i as int] == fields@[i as int].deep_view());
        assert(all.skip(i as int).drop_first() == all.skip(i + 1));
        if same_text(fields[i].0.as_str(), name) {
            return fields[i].1.clone();
        }
        i += 1;
    }
    None
}

fn meta_from_texts(
    title: Option<String>,
    owner: Option<String>,
    patent_no: Option<String>,
    description: Option<String>,
    created_at: Option<String>,
) -> (res: Option<AchievementMeta>)
    ensures
        res.deep_view() == meta_of_texts(
            title.deep_view(),
            owner.deep_view(),
            patent_no.deep_view(),
            description.deep_view(),
            created_at.deep_view(),
        ),
{
    match (title, owner, patent_no, description, created_at) {
        (Some(title), Some(owner), Some(patent_no), Some(description), Some(created_at)) => Some(
            AchievementMeta { title, owner, patent_no, description, created_at },
        ),
        _ => None,
    }
}

/// The description that a JSON item holds.
pub fn meta_from_item(item: &JsonItem) -> (res: Option<AchievementMeta>)
    ensures
        res.deep_view() == meta_of_item(item@),
{
    match item {
        JsonItem::Fields(fields) => meta_from_texts(
            find_field(fields, "title"),
            find_field(fields, "owner"),
            find_field(fields, "patentNo"),
            find_field(fields, "description"),
            find_field(fields, "createdAt"),
        ),
        JsonItem::Items(items) => if items.len() == 5 {
            meta_from_texts(
                items[0].clone(),
                items[1].clone(),
                items[2].clone(),
                items[3].clone(),
                items[4].clone(),
            )
        } else {
            None
        },
        JsonItem::Other => None,
    }
}

/// The descriptions that the entries of a JSON object hold.
pub fn decode(items: &Vec<(String, JsonItem)>) -> (res: MetaStore)
    ensures
        res@ == decoded(items.deep_view()),
{
    let mut store = MetaStore::new();
    let ghost all = items.deep_view();
    let mut i: usize = 0;
    assert(all.take(0) == Seq::<(Seq<char>, JsonItemView)>::empty());
    while i < items.len()
        invariant
            i <= items@.len(),
            all == items.deep_view(),
            store@ == decoded(all.take(i as int)),
        decreases items@.len() - i,
    {
        assert(all[i as int] == items@[i as int].deep_view());
        assert(all.take(i + 1).drop_last() == all.take(i as int));
        if let Some(meta) = meta_from_item(&items[i].1) {
            store.insert(items[i].0.clone(), meta);
        }
        i += 1;
    }
    assert(all.take(i as int) == all);
    store
}

/// The descriptions that a file holds, given its content; `None` where the file
/// is missing or cannot be read.
pub fn load_achievement_meta(content: Option<&str>) -> (res: MetaStore)
    ensures
        res@ == loaded(content.deep_view()),
{
    match content {
        Some(text) => match parse_object(text) {
            Some(items) => decode(&items),
            None => MetaStore::new(),
        },
        None => MetaStore::new(),
    }
}

/// The records of the file that keeps `store`.
pub fn encode(store: &MetaStore) -> (res: Vec<(String, Vec<(String, String)>)>)
    ensures
        res.deep_view() == encoded(store.listed()),
        meta::distinct_keys(store.listed()),
{
    let entries = store.entries();
    let mut records: Vec<(String, Vec<(String, String)>)> = Vec::new();
    let ghost all = store.listed();
    let mut i: usize = 0;
    assert(records.deep_view() == encoded(all.take(0)));
    while i < entries.len()
        invariant
            i <= entries@.len(),
            all == entries.deep_view(),
            records.deep_view() == encoded(all.take(i as int)),
        decreases entries@.len() - i,
    {
        let ghost before = records.deep_view();
        assert(all[i as int] == entries@[i as int].deep_view());
        let meta = &entries[i].1;
        let fields = vec![
            ("title".to_owned(), meta.title.clone()),
            ("owner".to_owned(), meta.owner.clone()),
            ("patentNo".to_owned(), meta.patent_no.clone()),
            ("description".to_owned(), meta.description.clone()),
            ("createdAt".to_owned(), meta.created_at.clone()),
        ];
        assert(fields.deep_view() == fields_of(meta@));
        records.push((entries[i].0.clone(), fields));
        assert(records.deep_view() == before.push((all[i as int].0, fields_of(all[i as int].1))));
        assert(all.take(i + 1) == all.take(i as int).push(all[i as int]));
        assert(encoded(all.take(i + 1)) == encoded(all.take(i as int)).push(
            (all[i as int].0, fields_of(all[i as int].1)),
        ));
        i += 1;
    }
    assert(all.take(i as int) == all);
    records
}

/// The fields of a description are read back as that description.
pub proof fn meta_survives_file(meta: MetaView)
    ensures
        meta_of_item(JsonItemView::Fields(read_fields(fields_of(meta)))) == Some(meta),
{
    lemma_field_names();
    let fields = read_fields(fields_of(meta));
    reveal_with_fuel(field_text, 6);
    let rest = fields.drop_first();
    assert(rest[0] == fields[1]);
    assert(rest.drop_first()[0] == fields[2]);
    assert(rest.drop_first().drop_first()[0] == fields[3]);
    assert(rest.drop_first().drop_first().drop_first()[0] == fields[4]);
}

/// The field names differ from one another and from the reserved key.
proof fn lemma_field_names()
    ensures
        forall|meta: MetaView| meta::distinct_keys(#[trigger] fields_of(meta)),
        forall|meta: MetaView| !begins_reserved(#[trigger] fields_of(meta)),
        "title"@[0] == 't',
        "owner"@[0] == 'o',
        "patentNo"@[0] == 'p',
        "description"@[0] == 'd',
        "createdAt"@[0] == 'c',
{
    reveal_strlit("title");
    reveal_strlit("owner");
    reveal_strlit("patentNo");
    reveal_strlit("description");
    reveal_strlit("createdAt");
    reveal_strlit("$serde_json::private::RawValue");
    assert("$serde_json::private::RawValue"@[0] == '$');
    assert("title"@[0] == 't');
    assert("owner"@[0] == 'o');
    assert("patentNo"@[0] == 'p');
    assert("description"@[0] == 'd');
    assert("createdAt"@[0] == 'c');
}

/// The records of a store are read back as its descriptions.
pub proof fn records_survive_file(entries: Seq<(Seq<char>, MetaView)>)
    ensures
        decoded(read_records(encoded(entries))) == meta::map_of(entries),
    decreases entries.len(),
{
    if entries.len() > 0 {
        let items = read_records(encoded(entries));
        records_survive_file(entries.drop_last());
        assert(items.drop_last() == read_records(encoded(entries.drop_last())));
        meta_survives_file(entries.last().1);
    }
}

/// The records of a store are readable unless the first of them has the reserved
/// key.
pub proof fn records_are_readable(entries: Seq<(Seq<char>, MetaView)>)
    requires
        meta::distinct_keys(entries),
        !begins_reserved(entries),
    ensures
        readable(encoded(entries)),
{
    lemma_field_names();
    let records = encoded(entries);
    assert forall|i: int, j: int| 0 <= i < records.len() && 0 <= j < records.len() && i != j implies #[trigger] records[i].0
        != #[trigger] records[j].0 by {
        assert(entries[i].0 != entries[j].0);
    }
    assert forall|i: int| 0 <= i < records.len() implies meta::distinct_keys((#[trigger] records[i]).1)
        && !begins_reserved(records[i].1) by {
        assert(records[i] == (entries[i].0, fields_of(entries[i].1)));
    }
}

/// The text of the file that keeps `store`. Loading that text gives the same
/// descriptions, unless the first file name in the store is the reserved key.
pub fn save_achievement_meta(store: &MetaStore) -> (res: Result<String, String>)
    ensures
        res is Ok,
        res matches Ok(text) ==> text@ == json_text(encoded(store.listed())),
        !begins_reserved(store.listed()) ==> loaded(Some(res->Ok_0@)) == store@,
        (forall|key: Seq<char>| #[trigger] store@.contains_key(key) ==> !reserved_key(key)) ==> loaded(
            Some(res->Ok_0@),
        ) == store@,
{
    let records = encode(store);
    proof {
        records_survive_file(store.listed());
        meta::map_of_holds_entries(store.listed());
        if store.listed().len() > 0 {
            assert(store@.contains_key(store.listed()[0].0));
        }
        if !begins_reserved(store.listed()) {
            records_are_readable(store.listed());
        }
    }
    match print_object(&records) {
        Ok(text) => Ok(text),
        Err(error) => Err(error.to_string()),
    }
}

proof fn lemma_field_text(fields: Seq<(Seq<char>, Option<Seq<char>>)>, name: Seq<char>, text: Seq<char>)
    requires
        meta::distinct_keys(fields),
    ensures
        field_text(fields, name) == Some(text) <==> fields.contains((name, Some(text))),
    decreases fields.len(),
{
    if fields.len() > 0 {
        let rest = fields.drop_first();
        assert forall|i: int, j: int| 0 <= i < rest.len() && 0 <= j < rest.len() && i != j implies #[trigger] rest[i].0
            != #[trigger] rest[j].0 by {
            assert(fields[i + 1].0 != fields[j + 1].0);
        }
        lemma_field_text(rest, name, text);
        if fields.contains((name, Some(text))) {
            let i = choose|i: int| 0 <= i < fields.len() && fields[i] == (name, Some(text));
            if i > 0 {
                assert(fields[0].0 != fields[i].0);
                assert(rest[i - 1] == (name, Some(text)));
            }
        }
        if field_text(fields, name) == Some(text) {
            if fields[0].0 == name {
                assert(fields[0] == (name, Some(text)));
            } else {
                let i = choose|i: int| 0 <= i < rest.len() && rest[i] == (name, Some(text));
                assert(fields[i + 1] == (name, Some(text)));
            }
        }
    }
}

/// An object holds a description exactly if it has its five texts under the names
/// `title`, `owner`, `patentNo`, `description` and `createdAt`, whatever else it has.
pub proof fn object_holds_description(fields: Seq<(Seq<char>, Option<Seq<char>>)>, meta: MetaView)
    requires
        meta::distinct_keys(fields),
    ensures
        meta_of_item(JsonItemView::Fields(fields)) == Some(meta) <==> {
            &&& fields.contains(("title"@, Some(meta.title)))
            &&& fields.contains(("owner"@, Some(meta.owner)))
            &&& fields.contains(("patentNo"@, Some(meta.patent_no)))
            &&& fields.contains(("description"@, Some(meta.description)))
            &&& fields.contains(("createdAt"@, Some(meta.created_at)))
        },
{
    lemma_field_text(fields, "title"@, meta.title);
    lemma_field_text(fields, "owner"@, meta.owner);
    lemma_field_text(fields, "patentNo"@, meta.patent_no);
    lemma_field_text(fields, "description"@, meta.description);
    lemma_field_text(fields, "createdAt"@, meta.created_at);
}

/// An array holds a description exactly if it is its five texts, in the order of
/// title, owner, patent number, description and time. Nothing but objects and
/// arrays holds one.
pub proof fn array_holds_description(items: Seq<Option<Seq<char>>>, meta: MetaView)
    ensures
        meta_of_item(JsonItemView::Items(items)) == Some(meta) <==> {
            &&& items.len() == 5
            &&& items[0] == Some(meta.title)
            &&& items[1] == Some(meta.owner)
            &&& items[2] == Some(meta.patent_no)
            &&& items[3] == Some(meta.description)
            &&& items[4] == Some(meta.created_at)
        },
        meta_of_item(JsonItemView::Other) is None,
{
}

/// In the file, every entry of a store is a record under its file name, and the
/// record is the five texts of the description under their names.
pub proof fn records_hold_the_descriptions(entries: Seq<(Seq<char>, MetaView)>, i: int)
    requires
        0 <= i < entries.len(),
    ensures
        encoded(entries).len() == entries.len(),
        encoded(entries)[i].0 == entries[i].0,
        encoded(entries)[i].1.len() == 5,
        encoded(entries)[i].1.contains(("title"@, entries[i].1.title)),
        encoded(entries)[i].1.contains(("owner"@, entries[i].1.owner)),
        encoded(entries)[i].1.contains(("patentNo"@, entries[i].1.patent_no)),
        encoded(entries)[i].1.contains(("description"@, entries[i].1.description)),
        encoded(entries)[i].1.contains(("createdAt"@, entries[i].1.created_at)),
{
    let fields = encoded(entries)[i].1;
    let meta = entries[i].1;
    assert(fields[0] == ("title"@, meta.title));
    assert(fields[1] == ("owner"@, meta.owner));
    assert(fields[2] == ("patentNo"@, meta.patent_no));
    assert(fields[3] == ("description"@, meta.description));
    assert(fields[4] == ("createdAt"@, meta.created_at));
}

/// A file that cannot be read, or that holds no JSON object, holds no descriptions.
/// One that does holds, under each key, the description of the last entry with that
/// key that is one, and none where there is no such entry.
pub proof fn file_holds_the_descriptions(content: Seq<char>, key: Seq<char>)
    ensures
        !loaded(None).contains_key(key),
        json_object(content) is None ==> !loaded(Some(content)).contains_key(key),
        json_object(content) matches Some(items) ==> {
            &&& loaded(Some(content)).contains_key(key) <==> exists|i: int|
                0 <= i < items.len() && (#[trigger] items[i]).0 == key && meta_of_item(items[i].1) is Some
            &&& forall|i: int|
                {
                    &&& 0 <= i < items.len()
                    &&& (#[trigger] items[i]).0 == key
                    &&& meta_of_item(items[i].1) is Some
                    &&& forall|j: int|
                        i < j < items.len() && (#[trigger] items[j]).0 == key ==> meta_of_item(items[j].1) is None
                } ==> meta_of_item(items[i].1) == Some(loaded(Some(content))[key])
        },
{
    if let Some(items) = json_object(content) {
        lemma_decoded(items, key);
    }
}

proof fn lemma_decoded(items: Seq<(Seq<char>, JsonItemView)>, key: Seq<char>)
    ensures
        decoded(items).contains_key(key) <==> exists|i: int|
            0 <= i < items.len() && (#[trigger] items[i]).0 == key && meta_of_item(items[i].1) is Some,
        forall|i: int|
            {
                &&& 0 <= i < items.len()
                &&& (#[trigger] items[i]).0 == key
                &&& meta_of_item(items[i].1) is Some
                &&& forall|j: int|
                    i < j < items.len() && (#[trigger] items[j]).0 == key ==> meta_of_item(items[j].1) is None
            } ==> meta_of_item(items[i].1) == Some(decoded(items)[key]),
    decreases items.len(),
{
    if items.len() > 0 {
        let rest = items.drop_last();
        let last = items.len() - 1;
        lemma_decoded(rest, key);
        if items[last].0 == key && meta_of_item(items[last].1) is Some {
            assert(items[last].0 == key);
        } else {
            assert(decoded(items).contains_key(key) == decoded(rest).contains_key(key));
            if decoded(rest).contains_key(key) {
                let i = choose|i: int|
                    0 <= i < rest.len() && (#[trigger] rest[i]).0 == key && meta_of_item(rest[i].1) is Some;
                assert(items[i] == rest[i]);
            }
            if exists|i: int| 0 <= i < items.len() && (#[trigger] items[i]).0 == key && meta_of_item(items[i].1) is Some {
                let i = choose|i: int|
                    0 <= i < items.len() && (#[trigger] items[i]).0 == key && meta_of_item(items[i].1) is Some;
                assert(rest[i] == items[i]);
            }
        }
        assert forall|i: int|
            {
                &&& 0 <= i < items.len()
                &&& (#[trigger] items[i]).0 == key
                &&& meta_of_item(items[i].1) is Some
                &&& forall|j: int|
                    i < j < items.len() && (#[trigger] items[j]).0 == key ==> meta_of_item(items[j].1) is None
            } implies meta_of_item(items[i].1) == Some(decoded(items)[key]) by {
            if i < last {
                assert(rest[i] == items[i]);
                assert(items[last].0 == key ==> meta_of_item(items[last].1) is None);
                assert forall|j: int| i < j < rest.len() && (#[trigger] rest[j]).0 == key implies meta_of_item(
                    rest[j].1,
                ) is None by {
                    assert(items[j] == rest[j]);
                }
            }
        }
    }
}

/// Only one file name, as the first of a store, keeps its file from being read back.
pub proof fn one_name_is_reserved(entries: Seq<(Seq<char>, MetaView)>)
    requires
        begins_reserved(entries),
    ensures
        entries.len() > 0,
        entries[0].0 == "$serde_json::private::RawValue"@,
{
}

/// What is saved can be loaded: the text that a store is saved as gives, when it is
/// loaded, the same descriptions, unless the first file name in the store is the
/// reserved one. A file that is missing gives none.
pub proof fn saved_stores_are_loaded(
    store: &MetaStore,
    saved: Result<String, String>,
    text: &str,
    loaded_store: MetaStore,
    no_store: MetaStore,
    key: Seq<char>,
)
    requires
        call_ensures(save_achievement_meta, (store,), saved),
        saved is Ok ==> text@ == saved->Ok_0@,
        call_ensures(load_achievement_meta, (Some(text),), loaded_store),
        call_ensures(load_achievement_meta, (None,), no_store),
        store.listed().len() > 0 ==> store.listed()[0].0 != "$serde_json::private::RawValue"@,
    ensures
        saved is Ok,
        loaded_store@ == store@,
        !no_store@.contains_key(key),
{
}

} // verus!

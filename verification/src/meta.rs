//! The descriptions of the achievements, kept by file name.
use vstd::prelude::*;

use crate::text::same_text;

verus! {

/// The description of an achievement.
pub struct AchievementMeta {
    pub title: String,
    pub owner: String,
    pub patent_no: String,
    pub description: String,
    pub created_at: String,
}

/// A description as sequences of characters.
pub struct MetaView {
    pub title: Seq<char>,
    pub owner: Seq<char>,
    pub patent_no: Seq<char>,
    pub description: Seq<char>,
    pub created_at: Seq<char>,
}

impl View for AchievementMeta {
    type V = MetaView;

    open spec fn view(&self) -> MetaView {
        MetaView {
            title: self.title@,
            owner: self.owner@,
            patent_no: self.patent_no@,
            description: self.description@,
            created_at: self.created_at@,
        }
    }
}

impl DeepView for AchievementMeta {
    type V = MetaView;

    open spec fn deep_view(&self) -> MetaView {
        self.view()
    }
}

/// The description of a file that has none.
pub open spec fn blank_meta() -> MetaView {
    MetaView {
        title: Seq::empty(),
        owner: Seq::empty(),
        patent_no: Seq::empty(),
        description: Seq::empty(),
        created_at: Seq::empty(),
    }
}

impl Default for AchievementMeta {
    fn default() -> (res: AchievementMeta)
        ensures
            res@ == blank_meta(),
    {
        AchievementMeta {
            title: String::new(),
            owner: String::new(),
            patent_no: String::new(),
            description: String::new(),
            created_at: String::new(),
        }
    }
}

impl Clone for AchievementMeta {
    fn clone(&self) -> (res: AchievementMeta)
        ensures
            res@ == self@,
    {
        AchievementMeta {
            title: self.title.clone(),
            owner: self.owner.clone(),
            patent_no: self.patent_no.clone(),
            description: self.description.clone(),
            created_at: self.created_at.clone(),
        }
    }
}

/// The map that inserting `entries` one after the other leads to.
pub open spec fn map_of(entries: Seq<(Seq<char>, MetaView)>) -> Map<Seq<char>, MetaView>
    decreases entries.len(),
{
    if entries.len() == 0 {
        Map::empty()
    } else {
        map_of(entries.drop_last()).insert(entries.last().0, entries.last().1)
    }
}

/// Whether no key occurs twice.
pub open spec fn distinct_keys<V>(entries: Seq<(Seq<char>, V)>) -> bool {
    forall|i: int, j: int|
        0 <= i < entries.len() && 0 <= j < entries.len() && i != j ==> #[trigger] entries[i].0
            != #[trigger] entries[j].0
}

/// The map of entries with distinct keys holds these entries and no others.
pub proof fn map_of_holds_entries(entries: Seq<(Seq<char>, MetaView)>)
    requires
        distinct_keys(entries),
    ensures
        forall|i: int|
            0 <= i < entries.len() ==> map_of(entries).contains_key(#[trigger] entries[i].0) && map_of(
                entries,
            )[entries[i].0] == entries[i].1,
        forall|key: Seq<char>| #[trigger]
            map_of(entries).contains_key(key) ==> exists|i: int|
                0 <= i < entries.len() && #[trigger] entries[i].0 == key,
    decreases entries.len(),
{
    if entries.len() > 0 {
        let rest = entries.drop_last();
        assert(distinct_keys(rest)) by {
            assert forall|i: int, j: int| 0 <= i < rest.len() && 0 <= j < rest.len() && i != j implies #[trigger] rest[i].0
                != #[trigger] rest[j].0 by {
                assert(entries[i].0 != entries[j].0);
            }
        }
        map_of_holds_entries(rest);
        assert forall|i: int| 0 <= i < entries.len() implies map_of(entries).contains_key(
            #[trigger] entries[i].0,
        ) && map_of(entries)[entries[i].0] == entries[i].1 by {
            if i < rest.len() {
                assert(rest[i].0 == entries[i].0);
                assert(entries[i].0 != entries[entries.len() - 1].0);
            }
        }
        assert forall|key: Seq<char>| #[trigger] map_of(entries).contains_key(key) implies exists|i: int|
            0 <= i < entries.len() && #[trigger] entries[i].0 == key by {
            if key == entries.last().0 {
                assert(entries[entries.len() - 1].0 == key);
            } else {
                assert(map_of(rest).contains_key(key));
                let i = choose|i: int| 0 <= i < rest.len() && #[trigger] rest[i].0 == key;
                assert(entries[i].0 == key);
            }
        }
    }
}

/// Descriptions by file name. No file name occurs twice.
pub struct MetaStore {
    entries: Vec<(String, AchievementMeta)>,
}

impl View for MetaStore {
    type V = Map<Seq<char>, MetaView>;

    open spec fn view(&self) -> Map<Seq<char>, MetaView> {
        map_of(self.listed())
    }
}

impl MetaStore {
    /// The entries in the order in which they are kept.
    pub closed spec fn listed(&self) -> Seq<(Seq<char>, MetaView)> {
        self.entries.deep_view()
    }

    #[verifier::type_invariant]
    spec fn well_formed(self) -> bool {
        distinct_keys(self.entries.deep_view())
    }

    /// A store without descriptions.
    pub fn new() -> (res: MetaStore)
        ensures
            res@ == Map::<Seq<char>, MetaView>::empty(),
            res.listed() == Seq::<(Seq<char>, MetaView)>::empty(),
    {
        let entries: Vec<(String, AchievementMeta)> = Vec::new();
        assert(entries.deep_view() == Seq::<(Seq<char>, MetaView)>::empty());
        MetaStore { entries }
    }

    /// The entries of a store. Their keys are distinct.
    pub fn entries(&self) -> (res: &Vec<(String, AchievementMeta)>)
        ensures
            res.deep_view() == self.listed(),
            distinct_keys(self.listed()),
    {
        proof {
            use_type_invariant(self);
        }
        &self.entries
    }

    /// The place of a file name.
    fn position(&self, key: &str) -> (res: Option<usize>)
        ensures
            match res {
                Some(i) => i < self.entries@.len() && self.entries@[i as int].0@ == key@,
                None => forall|i: int| 0 <= i < self.entries@.len() ==> #[trigger] self.entries@[i].0@ != key@,
            },
            res is Some <==> self@.contains_key(key@),
            res matches Some(i) ==> self@[key@] == self.entries@[i as int].1@,
    {
        proof {
            use_type_invariant(self);
            map_of_holds_entries(self.entries.deep_view());
        }
        let mut i: usize = 0;
        while i < self.entries.len()
            invariant
                i <= self.entries@.len(),
                forall|j: int| 0 <= j < i ==> #[trigger] self.entries@[j].0@ != key@,
            decreases self.entries@.len() - i,
        {
            if same_text(self.entries[i].0.as_str(), key) {
                proof {
                    use_type_invariant(self);
                    map_of_holds_entries(self.entries.deep_view());
                }
                assert(self.entries.deep_view()[i as int].0 == key@);
                return Some(i);
            }
            i += 1;
        }
        proof {
            if self@.contains_key(key@) {
                let j = choose|j: int|
                    0 <= j < self.entries.deep_view().len() && #[trigger] self.entries.deep_view()[j].0 == key@;
                assert(self.entries@[j].0@ == key@);
            }
        }
        None
    }

    /// Whether a file has a description.
    pub fn contains_key(&self, key: &str) -> (res: bool)
        ensures
            res == self@.contains_key(key@),
    {
        self.position(key).is_some()
    }

    /// The description of a file, if it has one.
    pub fn get(&self, key: &str) -> (res: Option<AchievementMeta>)
        ensures
            res is Some <==> self@.contains_key(key@),
            res matches Some(meta) ==> meta@ == self@[key@],
    {
        match self.position(key) {
            Some(i) => Some(self.entries[i].1.clone()),
            None => None,
        }
    }

    /// The description of a file, or a blank one.
    pub fn get_or_default(&self, key: &str) -> (res: AchievementMeta)
        ensures
            res@ == if self@.contains_key(key@) {
                self@[key@]
            } else {
                blank_meta()
            },
    {
        match self.get(key) {
            Some(meta) => meta,
            None => AchievementMeta::default(),
        }
    }

    /// Gives a file a description, in place of the one it had.
    pub fn insert(&mut self, key: String, meta: AchievementMeta)
        ensures
            final(self)@ == old(self)@.insert(key@, meta@),
    {
        let found = self.position(key.as_str());
        proof {
            use_type_invariant(&*self);
        }
        let ghost before = self.entries.deep_view();
        let mut entries: Vec<(String, AchievementMeta)> = Vec::new();
        assert(entries.deep_view() == Seq::<(Seq<char>, MetaView)>::empty());
        std::mem::swap(&mut self.entries, &mut entries);
        match found {
            Some(i) => {
                let ghost (k, m) = (key@, meta@);
                entries.set(i, (key, meta));
                proof {
                    assert(entries.deep_view() == before.update(i as int, (k, m)));
                    lemma_map_update(before, i as int, m);
                }
            },
            None => {
                let ghost (k, m) = (key@, meta@);
                entries.push((key, meta));
                proof {
                    let after = entries.deep_view();
                    assert(after == before.push((k, m)));
                    assert(after.drop_last() == before);
                    assert forall|i: int| 0 <= i < before.len() implies #[trigger] before[i].0 != k by {
                        assert(before[i].0 == entries@[i].0@);
                    }
                    assert(distinct_keys(after));
                }
            },
        }
        self.entries = entries;
    }

    /// Removes the description of a file; says whether there was one.
    pub fn remove(&mut self, key: &str) -> (res: bool)
        ensures
            final(self)@ == old(self)@.remove(key@),
            res == old(self)@.contains_key(key@),
    {
        let found = self.position(key);
        proof {
            use_type_invariant(&*self);
        }
        let ghost before = self.entries.deep_view();
        match found {
            Some(i) => {
                let mut entries: Vec<(String, AchievementMeta)> = Vec::new();
                assert(entries.deep_view() == Seq::<(Seq<char>, MetaView)>::empty());
                std::mem::swap(&mut self.entries, &mut entries);
                entries.remove(i);
                proof {
                    assert(entries.deep_view() == before.remove(i as int));
                    lemma_map_remove(before, i as int);
                }
                self.entries = entries;
                true
            },
            None => {
                assert(self@.remove(key@) == self@);
                false
            },
        }
    }
}

proof fn lemma_map_update(entries: Seq<(Seq<char>, MetaView)>, at: int, meta: MetaView)
    requires
        distinct_keys(entries),
        0 <= at < entries.len(),
    ensures
        distinct_keys(entries.update(at, (entries[at].0, meta))),
        map_of(entries.update(at, (entries[at].0, meta))) == map_of(entries).insert(entries[at].0, meta),
{
    let after = entries.update(at, (entries[at].0, meta));
    assert(distinct_keys(after)) by {
        assert forall|i: int, j: int| 0 <= i < after.len() && 0 <= j < after.len() && i != j implies #[trigger] after[i].0
            != #[trigger] after[j].0 by {
            assert(entries[i].0 != entries[j].0);
        }
    }
    map_of_holds_entries(entries);
    map_of_holds_entries(after);
    let left = map_of(after);
    let right = map_of(entries).insert(entries[at].0, meta);
    assert forall|key: Seq<char>| left.contains_key(key) <==> right.contains_key(key) by {
        if left.contains_key(key) {
            let i = choose|i: int| 0 <= i < after.len() && #[trigger] after[i].0 == key;
            assert(entries[i].0 == key);
        }
        if right.contains_key(key) && key != entries[at].0 {
            let i = choose|i: int| 0 <= i < entries.len() && #[trigger] entries[i].0 == key;
            assert(after[i].0 == key);
        }
        assert(after[at].0 == entries[at].0);
    }
    assert forall|key: Seq<char>| left.contains_key(key) implies left[key] == right[key] by {
        let i = choose|i: int| 0 <= i < after.len() && #[trigger] after[i].0 == key;
        assert(entries[i].0 == key);
    }
    assert(left =~= right);
}

proof fn lemma_map_remove(entries: Seq<(Seq<char>, MetaView)>, at: int)
    requires
        distinct_keys(entries),
        0 <= at < entries.len(),
    ensures
        distinct_keys(entries.remove(at)),
        map_of(entries.remove(at)) == map_of(entries).remove(entries[at].0),
{
    let after = entries.remove(at);
    let origin = |i: int| if i < at { i } else { i + 1 };
    assert(distinct_keys(after)) by {
        assert forall|i: int, j: int| 0 <= i < after.len() && 0 <= j < after.len() && i != j implies #[trigger] after[i].0
            != #[trigger] after[j].0 by {
            assert(entries[origin(i)].0 != entries[origin(j)].0);
        }
    }
    map_of_holds_entries(entries);
    map_of_holds_entries(after);
    let left = map_of(after);
    let right = map_of(entries).remove(entries[at].0);
    assert forall|key: Seq<char>| left.contains_key(key) <==> right.contains_key(key) by {
        if left.contains_key(key) {
            let i = choose|i: int| 0 <= i < after.len() && #[trigger] after[i].0 == key;
            assert(entries[origin(i)].0 == key);
            assert(entries[origin(i)].0 != entries[at].0);
        }
        if right.contains_key(key) {
            let i = choose|i: int| 0 <= i < entries.len() && #[trigger] entries[i].0 == key;
            let k = if i < at { i } else { i - 1 };
            assert(after[k].0 == key);
        }
    }
    assert forall|key: Seq<char>| left.contains_key(key) implies left[key] == right[key] by {
        let i = choose|i: int| 0 <= i < after.len() && #[trigger] after[i].0 == key;
        assert(entries[origin(i)].0 == key);
    }
    assert(left =~= right);
}

} // verus!

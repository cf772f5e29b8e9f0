//! Directory indexes: each file's path relative to the root, with a leading
//! slash, mapped to its modification time in whole unix seconds, plus the
//! moment the index was built under `#timestamp`.
use vstd::prelude::*;
use crate::index_comparer::timestamp_key;
use crate::strmap::{StrMap, text_eq};

verus! {

/// The suffix of a file that is still being received.
pub const TEMP_SUFFIX: &'static str = ".djinn_temp";

/// The key under which an index records when it was built.
pub const TIMESTAMP_KEY: &'static str = "#timestamp";

pub open spec fn temp_suffix() -> Seq<char> {
    ".djinn_temp"@
}

pub open spec fn ends_with(s: Seq<char>, suffix: Seq<char>) -> bool {
    s.len() >= suffix.len() && s.subrange(s.len() - suffix.len(), s.len() as int) == suffix
}

/// The key of a file reached through `segments` below the root:
/// `/a/b` for `[a, b]`.
pub open spec fn path_key(segments: Seq<Seq<char>>) -> Seq<char>
    decreases segments.len(),
{
    if segments.len() == 0 {
        Seq::empty()
    } else {
        path_key(segments.drop_last()) + seq!['/'] + segments.last()
    }
}

/// A file found by walking the root: the names from the root down to it,
/// and its modification time in whole seconds.
pub struct FileEntry {
    pub segments: Vec<String>,
    pub modified_secs: u64,
}

impl FileEntry {
    pub open spec fn names(&self) -> Seq<Seq<char>> {
        self.segments@.map_values(|s: String| s@)
    }

    /// A file of a walk has at least one name.
    pub open spec fn wf(&self) -> bool {
        self.segments@.len() > 0
    }

    pub open spec fn is_temp(&self) -> bool {
        ends_with(self.names().last(), temp_suffix())
    }
}

/// The index of the files listed, without those still being received.
pub open spec fn listing_index(files: Seq<FileEntry>) -> Map<Seq<char>, u64>
    decreases files.len(),
{
    if files.len() == 0 {
        Map::empty()
    } else {
        let rest = listing_index(files.drop_last());
        let f = files.last();
        if f.is_temp() {
            rest
        } else {
            rest.insert(path_key(f.names()), f.modified_secs)
        }
    }
}

/// The index that a build produces at time `now`.
pub open spec fn built_index(files: Seq<FileEntry>, now: u64) -> Map<Seq<char>, u64> {
    listing_index(files).insert(timestamp_key(), now)
}

/// Whether `name` ends with the in-progress suffix.
pub fn is_temp_name(name: &str) -> (r: bool)
    ensures
        r == ends_with(name@, temp_suffix()),
{
    let n = name.unicode_len();
    let k = TEMP_SUFFIX.unicode_len();
    if n < k {
        return false;
    }
    text_eq(name.substring_char(n - k, n), TEMP_SUFFIX)
}

/// The key of a file: a slash before each name.
pub fn key_of(segments: &Vec<String>) -> (r: String)
    ensures
        r@ == path_key(segments@.map_values(|s: String| s@)),
{
    let ghost names = segments@.map_values(|s: String| s@);
    let mut key = String::new();
    let mut i: usize = 0;
    while i < segments.len()
        invariant
            0 <= i <= segments@.len(),
            names == segments@.map_values(|s: String| s@),
            key@ == path_key(names.subrange(0, i as int)),
        decreases segments@.len() - i,
    {
        assert(names.subrange(0, i + 1).drop_last() =~= names.subrange(0, i as int));
        key.append("/");
        key.append(segments[i].as_str());
        i = i + 1;
        proof {
            reveal_strlit("/");
        }
        assert(key@ =~= path_key(names.subrange(0, i as int)));
    }
    assert(names.subrange(0, i as int) =~= names);
    key
}

pub struct IndexManager {
    pub index: StrMap<u64>,
    pub root: String,
}

impl IndexManager {
    pub fn new(root: String) -> (r: Self)
        ensures
            r.index.wf(),
            r.index.map() == Map::<Seq<char>, u64>::empty(),
            r.root == root,
    {
        IndexManager { index: StrMap::new(), root }
    }

    pub fn add(&mut self, key: String, value: u64)
        requires
            old(self).index.wf(),
        ensures
            final(self).index.wf(),
            final(self).index.map() == old(self).index.map().insert(key@, value),
            final(self).root == old(self).root,
    {
        self.index.insert(key, value);
    }

    pub fn get(&self, key: &str) -> (r: Option<&u64>)
        requires
            self.index.wf(),
        ensures
            r is Some <==> self.index.map().contains_key(key@),
            r matches Some(v) ==> *v == self.index.map()[key@],
    {
        self.index.get(key)
    }

    /// Merges `map` into the index; its entries win.
    pub fn update(&mut self, map: StrMap<u64>)
        requires
            old(self).index.wf(),
            map.wf(),
        ensures
            final(self).index.wf(),
            final(self).index.map() == old(self).index.map().union_prefer_right(map.map()),
            final(self).root == old(self).root,
    {
        let ghost start = self.index.map();
        let mut i: usize = 0;
        while i < map.entries.len()
            invariant
                map.wf(),
                self.index.wf(),
                self.root == old(self).root,
                0 <= i <= map.entries@.len(),
                self.index.map() == start.union_prefer_right(
                    crate::strmap::pairs_to_map(map.pairs().subrange(0, i as int)),
                ),
            decreases map.entries@.len() - i,
        {
            let ghost sub = map.pairs().subrange(0, i + 1);
            assert(sub.drop_last() =~= map.pairs().subrange(0, i as int));
            self.index.insert(map.entries[i].0.clone(), map.entries[i].1);
            assert(self.index.map() =~= start.union_prefer_right(crate::strmap::pairs_to_map(sub)));
            i = i + 1;
        }
        assert(map.pairs().subrange(0, i as int) =~= map.pairs());
    }

    /// Rebuilds the index from the files that a walk of the root found,
    /// stamped with `now`. Files still being received are left out.
    pub fn build(&mut self, files: &Vec<FileEntry>, now: u64)
        requires
            forall|i: int| 0 <= i < files@.len() ==> (#[trigger] files@[i]).wf(),
        ensures
            final(self).index.wf(),
            final(self).index.map() == built_index(files@, now),
            final(self).root == old(self).root,
    {
        let mut index: StrMap<u64> = StrMap::new();
        let mut i: usize = 0;
        while i < files.len()
            invariant
                0 <= i <= files@.len(),
                forall|i: int| 0 <= i < files@.len() ==> (#[trigger] files@[i]).wf(),
                index.wf(),
                index.map() == listing_index(files@.subrange(0, i as int)),
            decreases files@.len() - i,
        {
            let f = &files[i];
            assert(files@.subrange(0, i + 1).drop_last() =~= files@.subrange(0, i as int));
            let last = f.segments.len() - 1;
            let temp = is_temp_name(f.segments[last].as_str());
            if !temp {
                index.insert(key_of(&f.segments), f.modified_secs);
            }
            i = i + 1;
        }
        assert(files@.subrange(0, i as int) =~= files@);
        index.insert(TIMESTAMP_KEY.to_owned(), now);
        self.index = index;
    }
}

proof fn lemma_key_not_temp(names: Seq<Seq<char>>)
    requires
        names.len() > 0,
        !ends_with(names.last(), temp_suffix()),
    ensures
        !ends_with(path_key(names), temp_suffix()),
{
    reveal_strlit(".djinn_temp");
    let key = path_key(names);
    let last = names.last();
    let t = temp_suffix();
    assert(key == path_key(names.drop_last()) + seq!['/'] + last);
    if ends_with(key, t) {
        if last.len() >= t.len() {
            assert(last.subrange(last.len() - t.len(), last.len() as int) =~= key.subrange(
                key.len() - t.len(),
                key.len() as int,
            ));
        } else {
            let slash = key.len() - last.len() - 1;
            assert(key[slash] == '/');
            assert(key.subrange(key.len() - t.len(), key.len() as int)[slash - (key.len() - t.len())]
                == '/');
        }
    }
}

/// No key of a built index ends with the in-progress suffix.
pub proof fn lemma_index_omits_temp(files: Seq<FileEntry>, now: u64, k: Seq<char>)
    requires
        forall|i: int| 0 <= i < files.len() ==> (#[trigger] files[i]).wf(),
        built_index(files, now).contains_key(k),
    ensures
        !ends_with(k, temp_suffix()),
{
    reveal_strlit(".djinn_temp");
    reveal_strlit("#timestamp");
    if k == timestamp_key() {
        assert(k.len() < temp_suffix().len());
    } else {
        lemma_listing_entry(files, k);
        let i = choose|i: int| 0 <= i < files.len() && !files[i].is_temp() && path_key(files[i].names()) == k
            && listing_index(files)[k] == files[i].modified_secs;
        assert(files[i].wf());
        assert(files[i].names().len() > 0);
        lemma_key_not_temp(files[i].names());
    }
}

/// Every file entry of a built index is a listed file, not one still being
/// received, with the listed time in whole seconds.
pub proof fn lemma_listing_entry(files: Seq<FileEntry>, k: Seq<char>)
    requires
        listing_index(files).contains_key(k),
    ensures
        exists|i: int|
            0 <= i < files.len() && !files[i].is_temp() && path_key(files[i].names()) == k
                && listing_index(files)[k] == files[i].modified_secs,
    decreases files.len(),
{
    let rest = files.drop_last();
    let f = files.last();
    if !f.is_temp() && path_key(f.names()) == k {
        assert(files[files.len() - 1] == f);
    } else {
        lemma_listing_entry(rest, k);
        let i = choose|i: int| 0 <= i < rest.len() && !rest[i].is_temp() && path_key(rest[i].names()) == k
            && listing_index(rest)[k] == rest[i].modified_secs;
        assert(files[i] == rest[i]);
    }
}

/// Every listed file not still being received appears in the index; with
/// distinct keys among the listed files, under its own time.
pub proof fn lemma_listing_has_file(files: Seq<FileEntry>, i: int)
    requires
        0 <= i < files.len(),
        !files[i].is_temp(),
    ensures
        listing_index(files).contains_key(path_key(files[i].names())),
        (forall|a: int, b: int|
            0 <= a < b < files.len() ==> path_key(files[a].names()) != path_key(files[b].names()))
            ==> listing_index(files)[path_key(files[i].names())] == files[i].modified_secs,
    decreases files.len(),
{
    let rest = files.drop_last();
    if i < files.len() - 1 {
        assert(rest[i] == files[i]);
        lemma_listing_has_file(rest, i);
        if forall|a: int, b: int|
            0 <= a < b < files.len() ==> path_key(files[a].names()) != path_key(files[b].names()) {
            assert(path_key(files[i].names()) != path_key(files[files.len() - 1].names()));
            assert forall|a: int, b: int|
                0 <= a < b < rest.len() implies path_key(rest[a].names()) != path_key(rest[b].names()) by {
                assert(rest[a] == files[a] && rest[b] == files[b]);
            }
        }
    }
}

} // verus!

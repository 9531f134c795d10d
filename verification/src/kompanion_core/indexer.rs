//! Book metadata found by an indexer, and the interface every indexer offers.
use vstd::prelude::*;
use crate::text::str_equal;

verus! {

/// The map that a sequence of key/value writes leaves behind (later writes win).
pub open spec fn written_map(s: Seq<(String, String)>) -> Map<Seq<char>, Seq<char>>
    decreases s.len(),
{
    if s.len() == 0 {
        Map::empty()
    } else {
        written_map(s.drop_last()).insert(s.last().0@, s.last().1@)
    }
}

/// Extra metadata keyed by name (`language`, `publisher`, ...).
pub struct MetadataMap {
    entries: Vec<(String, String)>,
}

impl View for MetadataMap {
    type V = Map<Seq<char>, Seq<char>>;

    closed spec fn view(&self) -> Map<Seq<char>, Seq<char>> {
        written_map(self.entries@)
    }
}

impl MetadataMap {
    /// An empty map.
    pub fn new() -> (r: Self)
        ensures
            r@ == Map::<Seq<char>, Seq<char>>::empty(),
    {
        MetadataMap { entries: Vec::new() }
    }

    /// Sets `key` to `value`, replacing any earlier value.
    pub fn insert(&mut self, key: String, value: String)
        ensures
            final(self)@ == old(self)@.insert(key@, value@),
    {
        self.entries.push((key, value));
        assert(self.entries@.drop_last() =~= old(self).entries@);
    }

    /// The value stored under `key`.
    pub fn get(&self, key: &str) -> (r: Option<&String>)
        ensures
            match r {
                Some(v) => self@.contains_key(key@) && self@[key@] == v@,
                None => !self@.contains_key(key@),
            },
    {
        let mut k = self.entries.len();
        assert(self.entries@.take(k as int) =~= self.entries@);
        while k > 0
            invariant
                k <= self.entries@.len(),
                forall|j: int| k <= j < self.entries@.len() ==> self.entries@[j].0@ != key@,
                written_map(self.entries@).contains_key(key@) == written_map(self.entries@.take(k as int)).contains_key(key@),
                written_map(self.entries@).contains_key(key@) ==> written_map(self.entries@)[key@] == written_map(self.entries@.take(k as int))[key@],
            decreases k,
        {
            let ghost t = self.entries@.take(k as int);
            assert(t.drop_last() =~= self.entries@.take(k - 1));
            if str_equal(self.entries[k - 1].0.as_str(), key) {
                return Some(&self.entries[k - 1].1);
            }
            k = k - 1;
        }
        None
    }

    /// No key has a value.
    pub fn is_empty(&self) -> (r: bool)
        ensures
            r == (self@ == Map::<Seq<char>, Seq<char>>::empty()),
    {
        proof {
            if self.entries@.len() > 0 {
                assert(self@.contains_key(self.entries@.last().0@));
            }
        }
        self.entries.len() == 0
    }

    /// The writes in the order they were made (a later write of a key
    /// replaces an earlier one).
    pub fn writes(&self) -> (r: &Vec<(String, String)>)
        ensures
            written_map(r@) == self@,
    {
        &self.entries
    }
}

/// The metadata an indexer found for a book.
pub struct IndexMetadata {
    pub name: Option<String>,
    pub author: Option<String>,
    pub icon: Option<String>,
    pub extra: MetadataMap,
}

impl IndexMetadata {
    /// Metadata with the given name, author and icon and no extra fields.
    pub fn new(name: Option<String>, author: Option<String>, icon: Option<String>) -> (r: Self)
        ensures
            r.name == name,
            r.author == author,
            r.icon == icon,
            r.extra@ == Map::<Seq<char>, Seq<char>>::empty(),
    {
        IndexMetadata { name, author, icon, extra: MetadataMap::new() }
    }
}

/// What the extractor asks of every indexer.
pub trait FileIndexer {
    /// The file names this indexer takes.
    spec fn handles(&self, filename: Seq<char>) -> bool;

    /// The MIME type of the books it indexes.
    spec fn mime(&self) -> Seq<char>;

    /// The catalog content type of its entries.
    spec fn content_type(&self) -> Seq<char>;

    /// Whether this indexer takes `filename`.
    fn can_handle(&self, filename: &str) -> (r: bool)
        ensures
            r == self.handles(filename@),
    ;

    /// The MIME type of the books it indexes.
    fn mime_type(&self) -> (r: &'static str)
        ensures
            r@ == self.mime(),
    ;

    /// The catalog content type (`EBOK` for books, `PDOC` for personal
    /// documents).
    fn cde_type(&self) -> (r: &'static str)
        ensures
            r@ == self.content_type(),
    ;

    /// Whether the books carry install/remove hooks; an indexer that does
    /// not say otherwise has none.
    fn supports_hooks(&self) -> (r: bool)
        default_ensures
            !r,
    {
        false
    }
}

} // verus!

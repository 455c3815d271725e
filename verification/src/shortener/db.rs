//! The database of short codes, kept in memory.
use vstd::hash_map::StringHashMap;
use vstd::prelude::*;

verus! {

pub struct FakeDatabase {
    urls: StringHashMap<String>,
}

impl View for FakeDatabase {
    type V = Map<Seq<char>, Seq<char>>;

    closed spec fn view(&self) -> Map<Seq<char>, Seq<char>> {
        self.urls@.map_values(|u: String| u@)
    }
}

impl FakeDatabase {
    pub fn new() -> (db: Self)
        ensures
            db@ == Map::<Seq<char>, Seq<char>>::empty(),
    {
        let db = FakeDatabase { urls: StringHashMap::new() };
        assert(db@ =~= Map::<Seq<char>, Seq<char>>::empty());
        db
    }

    /// Stores `long_url` under `code`, replacing what was there.
    pub fn insert(&mut self, code: String, long_url: String)
        ensures
            final(self)@ == old(self)@.insert(code@, long_url@),
    {
        let ghost before = self@;
        self.urls.insert(code, long_url);
        assert(self@ =~= before.insert(code@, long_url@));
    }

    /// The URL stored under `code`, if any.
    pub fn find(&self, code: &str) -> (long_url: Option<String>)
        ensures
            match long_url {
                Some(u) => self@.contains_key(code@) && u@ == self@[code@],
                None => !self@.contains_key(code@),
            },
    {
        match self.urls.get(code) {
            Some(u) => Some(u.clone()),
            None => None,
        }
    }
}

impl Default for FakeDatabase {
    fn default() -> (db: Self)
        ensures
            db@ == Map::<Seq<char>, Seq<char>>::empty(),
    {
        FakeDatabase::new()
    }
}

/// Read-your-write: after storing `long_url` under `code`, looking `code` up
/// gives `long_url`, and every other code gives what it gave before.
pub proof fn lemma_find_after_insert(
    db: Map<Seq<char>, Seq<char>>,
    code: Seq<char>,
    long_url: Seq<char>,
    other: Seq<char>,
)
    ensures
        db.insert(code, long_url).contains_key(code),
        db.insert(code, long_url)[code] == long_url,
        other != code ==> (db.insert(code, long_url).contains_key(other) == db.contains_key(other)
            && db.insert(code, long_url)[other] == db[other]),
{
}

} // verus!

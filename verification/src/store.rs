use vstd::prelude::*;

verus! {

/// A failure of the underlying key-value store; fatal for the single
/// operation in progress, never retried.
#[derive(Clone, Copy, PartialEq, Eq, Structural, Debug)]
pub struct StoreError;

/// The durable key-value store holding one record per post, keyed by the
/// post's id.  It is backed by a sled database on disk, which the verifier
/// never looks inside; `store_map` names what it holds.
#[verifier::external_body]
pub struct Store {
    db: sled::Db,
}

/// What the store holds: a map from record keys to record bytes.  Keys are
/// written and read back as UTF-8 text.
pub uninterp spec fn store_map(s: Store) -> Map<Seq<char>, Seq<u8>>;

/// Whether the key/value pairs `v` are exactly the contents of `m`: keys
/// pairwise distinct, every pair in the map, every key of the map present.
pub open spec fn scan_matches(m: Map<Seq<char>, Seq<u8>>, v: Seq<(String, Vec<u8>)>) -> bool {
    &&& forall|i: int, j: int| 0 <= i < j < v.len() ==> v[i].0@ != v[j].0@
    &&& forall|i: int|
        0 <= i < v.len() ==> m.contains_key(#[trigger] v[i].0@) && m[v[i].0@] == v[i].1@
    &&& forall|k: Seq<char>|
        m.contains_key(k) ==> exists|i: int| 0 <= i < v.len() && #[trigger] v[i].0@ == k
}

impl Store {
    /// Relies on sled::open: opens (or creates) the database rooted at
    /// `path`.  Nothing is known of what an existing database holds.
    #[verifier::external_body]
    pub(crate) fn open_raw(path: &str) -> (r: Result<Store, StoreError>) {
        match sled::open(path) {
            Ok(db) => Ok(Store { db }),
            Err(_) => Err(StoreError),
        }
    }

    /// Relies on sled::Config::temporary and sled::Config::open: a freshly
    /// created temporary database holds nothing.
    #[verifier::external_body]
    pub(crate) fn temp_raw() -> (r: Result<Store, StoreError>)
        ensures
            match r {
                Ok(s) => store_map(s) == Map::<Seq<char>, Seq<u8>>::empty(),
                Err(_) => true,
            },
    {
        match sled::Config::new().temporary(true).open() {
            Ok(db) => Ok(Store { db }),
            Err(_) => Err(StoreError),
        }
    }

    /// Opens (or creates) the durable store rooted at `path`; what an
    /// existing database holds is whatever was written before.
    pub fn open(path: &str) -> (r: Result<Store, StoreError>) {
        Store::open_raw(path)
    }

    /// Opens a fresh temporary store, holding nothing; it leaves no trace
    /// behind.
    pub fn temp() -> (r: Result<Store, StoreError>)
        ensures
            match r {
                Ok(s) => store_map(s) == Map::<Seq<char>, Seq<u8>>::empty(),
                Err(_) => true,
            },
    {
        Store::temp_raw()
    }

    /// Relies on sled::Tree::insert: on success the store maps `key` to
    /// `value` and is otherwise unchanged.  A write is atomic on its single
    /// key, so on failure it either applied or did not; no other key moves.
    #[verifier::external_body]
    pub(crate) fn put_raw(&mut self, key: &str, value: &Vec<u8>) -> (r: Result<(), StoreError>)
        ensures
            r is Ok ==> store_map(*final(self)) == store_map(*old(self)).insert(key@, value@),
            r is Err ==> store_map(*final(self)) == store_map(*old(self)) || store_map(
                *final(self),
            ) == store_map(*old(self)).insert(key@, value@),
    {
        match self.db.insert(key.as_bytes(), value.as_slice()) {
            Ok(_) => Ok(()),
            Err(_) => Err(StoreError),
        }
    }

    /// Relies on sled::Tree::get: returns the bytes stored under `key`, or
    /// nothing when the key is absent.
    #[verifier::external_body]
    pub(crate) fn get_raw(&self, key: &str) -> (r: Result<Option<Vec<u8>>, StoreError>)
        ensures
            match r {
                Ok(Some(v)) => store_map(*self).contains_key(key@) && v@ == store_map(*self)[key@],
                Ok(None) => !store_map(*self).contains_key(key@),
                Err(_) => true,
            },
    {
        match self.db.get(key.as_bytes()) {
            Ok(Some(v)) => Ok(Some(v.to_vec())),
            Ok(None) => Ok(None),
            Err(_) => Err(StoreError),
        }
    }

    /// Relies on sled::Tree::iter: one full pass yields every key exactly
    /// once, each with its stored bytes, in no promised order.  This
    /// library writes only UTF-8 text keys; a key that is not valid UTF-8
    /// (a foreign database) is reported as a store fault.
    #[verifier::external_body]
    pub(crate) fn scan_raw(&self) -> (r: Result<Vec<(String, Vec<u8>)>, StoreError>)
        ensures
            r is Ok ==> scan_matches(store_map(*self), (r->Ok_0)@),
    {
        let mut out: Vec<(String, Vec<u8>)> = Vec::new();
        for item in self.db.iter() {
            match item {
                Ok((k, v)) => match String::from_utf8(k.to_vec()) {
                    Ok(key) => out.push((key, v.to_vec())),
                    Err(_) => return Err(StoreError),
                },
                Err(_) => return Err(StoreError),
            }
        }
        Ok(out)
    }
}

/// Stores `value` under `key`; on success the store maps `key` to `value`
/// and is otherwise unchanged.
pub fn put_record(store: &mut Store, key: &str, value: &Vec<u8>) -> (r: Result<(), StoreError>)
    ensures
        r is Ok ==> store_map(*final(store)) == store_map(*old(store)).insert(key@, value@),
{
    store.put_raw(key, value)
}

/// Reads the bytes stored under `key`, or nothing when the key is absent.
pub fn get_record(store: &Store, key: &str) -> (r: Result<Option<Vec<u8>>, StoreError>)
    ensures
        match r {
            Ok(Some(v)) => store_map(*store).contains_key(key@) && v@ == store_map(*store)[key@],
            Ok(None) => !store_map(*store).contains_key(key@),
            Err(_) => true,
        },
{
    store.get_raw(key)
}

} // verus!

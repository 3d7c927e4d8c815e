//! The trusted boundary to the persistent ordered key-value substrate.
//!
//! Each collection owns one `Tree`, modelled as a map from byte keys to byte
//! values (`tree_entries`). Mutations go through `WriteBatch`, a set of
//! pending writes applied atomically by `Tree::apply`. The `Store` is the
//! namespace registry, modelled by the set of tree names it holds
//! (`store_names`). Every function here wraps exactly one call into the
//! substrate; nothing else in the crate touches it.
//!
//! Each `Tree` value models its keyspace independently, so the model
//! assumes one live handle per namespace: a collection exclusively owns its
//! keyspace, as the data model prescribes. The substrate itself shares
//! state between handles of one name — opening a name twice yields two
//! handles onto the same tree — so writes through a second live handle
//! would not be reflected in the first handle's model. Hold at most one
//! collection handle per name at a time.

use vstd::prelude::*;

verus! {

/// One ordered, durable keyspace.
#[verifier::external_body]
pub struct Tree {
    inner: sled::Tree,
}

/// What a tree holds: a map from key bytes to value bytes.
pub uninterp spec fn tree_entries(t: Tree) -> Map<Seq<u8>, Seq<u8>>;

/// A batch of pending writes: for each touched key, the value to set
/// (`Some`) or a removal (`None`). A later write to the same key replaces
/// an earlier one, so the model is a map.
#[verifier::external_body]
pub struct WriteBatch {
    inner: sled::Batch,
}

/// What a batch holds.
pub uninterp spec fn batch_writes(b: WriteBatch) -> Map<Seq<u8>, Option<Seq<u8>>>;

/// The namespace registry.
#[verifier::external_body]
pub struct Store {
    inner: sled::Db,
}

/// The names of the trees the store holds.
pub uninterp spec fn store_names(st: Store) -> Set<Seq<u8>>;

/// The result of applying a write batch to tree contents.
pub open spec fn apply_writes(m: Map<Seq<u8>, Seq<u8>>, w: Map<Seq<u8>, Option<Seq<u8>>>) -> Map<
    Seq<u8>,
    Seq<u8>,
> {
    Map::new(
        |k: Seq<u8>|
            (w.dom().contains(k) && w[k] is Some) || (!w.dom().contains(k) && m.dom().contains(k)),
        |k: Seq<u8>|
            if w.dom().contains(k) {
                w[k]->0
            } else {
                m[k]
            },
    )
}

/// The model of a batch with nothing queued.
pub open spec fn empty_writes() -> Map<Seq<u8>, Option<Seq<u8>>> {
    Map::empty()
}

/// Whether `p` is a prefix of `k`.
pub open spec fn has_prefix(k: Seq<u8>, p: Seq<u8>) -> bool {
    k.len() >= p.len() && k.subrange(0, p.len() as int) == p
}

impl WriteBatch {
    /// Relies on sled::Batch::default: a batch with no pending writes.
    #[verifier::external_body]
    pub fn new() -> (b: WriteBatch)
        ensures
            batch_writes(b) == empty_writes(),
    {
        WriteBatch { inner: sled::Batch::default() }
    }

    /// Relies on sled::Batch::insert: queues setting `k` to `v`, replacing
    /// any earlier queued write to `k`.
    #[verifier::external_body]
    pub fn set(&mut self, k: &Vec<u8>, v: &Vec<u8>)
        ensures
            batch_writes(*final(self)) == batch_writes(*old(self)).insert(k@, Some(v@)),
    {
        self.inner.insert(k.clone(), v.clone());
    }

    /// Relies on sled::Batch::remove: queues removing `k`, replacing any
    /// earlier queued write to `k`.
    #[verifier::external_body]
    pub fn del(&mut self, k: &Vec<u8>)
        ensures
            batch_writes(*final(self)) == batch_writes(*old(self)).insert(k@, None),
    {
        self.inner.remove(k.clone());
    }
}

impl Tree {
    /// Relies on sled::Tree::get: returns the value at `k` exactly when the
    /// tree holds one.
    #[verifier::external_body]
    pub fn get(&self, k: &Vec<u8>) -> (r: Result<Option<Vec<u8>>, String>)
        ensures
            r matches Ok(o) ==> match o {
                Some(v) => tree_entries(*self).dom().contains(k@) && tree_entries(*self)[k@] == v@,
                None => !tree_entries(*self).dom().contains(k@),
            },
    {
        match self.inner.get(k.as_slice()) {
            Ok(Some(iv)) => Ok(Some(iv.to_vec())),
            Ok(None) => Ok(None),
            Err(e) => Err(e.to_string()),
        }
    }

    /// Relies on sled::Tree::transaction with TransactionalTree::apply_batch:
    /// on success all pending writes of the batch are applied as one atomic
    /// step. On failure nothing is promised about the contents: the
    /// substrate's commit applies the staged writes one by one, so a
    /// storage fault in mid-commit can leave some of them applied in this
    /// process (crash recovery, not the live view, is what the commit peg
    /// keeps atomic). Callers report the failure and make no claim about
    /// state.
    #[verifier::external_body]
    pub fn apply(&mut self, b: WriteBatch) -> (r: Result<(), String>)
        ensures
            r is Ok ==> tree_entries(*final(self)) == apply_writes(
                tree_entries(*old(self)),
                batch_writes(b),
            ),
    {
        let res = self.inner.transaction(
            |tx: &sled::transaction::TransactionalTree| -> sled::transaction::ConflictableTransactionResult<()> {
                tx.apply_batch(&b.inner)?;
                Ok(())
            },
        );
        match res {
            Ok(()) => Ok(()),
            Err(e) => Err(format!("{:?}", e)),
        }
    }

    /// Relies on sled::Tree::flush: forces durability of prior writes and
    /// leaves the contents unchanged.
    #[verifier::external_body]
    pub fn flush(&mut self) -> (r: Result<(), String>)
        ensures
            tree_entries(*final(self)) == tree_entries(*old(self)),
    {
        match self.inner.flush() {
            Ok(_) => Ok(()),
            Err(e) => Err(e.to_string()),
        }
    }

    /// Relies on sled::Tree::scan_prefix: yields exactly the keys starting
    /// with `prefix`, each once, in ascending raw-byte key order (the scan
    /// iterates the prefix range forward, and keys order bytewise).
    #[verifier::external_body]
    pub fn scan_keys(&self, prefix: &Vec<u8>) -> (r: Result<Vec<Vec<u8>>, String>)
        ensures
            r matches Ok(keys) ==> {
                &&& forall|i: int|
                    0 <= i < keys@.len() ==> tree_entries(*self).dom().contains(
                        (#[trigger] keys@[i])@,
                    ) && has_prefix(keys@[i]@, prefix@)
                &&& forall|k: Seq<u8>|
                    tree_entries(*self).dom().contains(k) && has_prefix(k, prefix@)
                        ==> exists|i: int| 0 <= i < keys@.len() && (#[trigger] keys@[i])@ == k
                &&& forall|i: int, j: int|
                    0 <= i < j < keys@.len() ==> crate::json::lex_lt(
                        (#[trigger] keys@[i])@,
                        (#[trigger] keys@[j])@,
                    )
            },
    {
        let mut out: Vec<Vec<u8>> = Vec::new();
        for item in self.inner.scan_prefix(prefix.as_slice()) {
            match item {
                Ok((k, _)) => out.push(k.to_vec()),
                Err(e) => {
                    return Err(e.to_string());
                },
            }
        }
        Ok(out)
    }
}

impl Store {
    /// Relies on sled::open: opens (creating if missing) the store at
    /// `path`. Nothing is assumed about what an existing store holds.
    #[verifier::external_body]
    pub fn open(path: &str) -> (r: Result<Store, String>) {
        match sled::open(path) {
            Ok(db) => Ok(Store { inner: db }),
            Err(e) => Err(e.to_string()),
        }
    }

    /// Relies on sled::Db::tree_names: returns each held tree name exactly
    /// once.
    #[verifier::external_body]
    pub fn names(&self) -> (r: Vec<Vec<u8>>)
        ensures
            forall|i: int|
                0 <= i < r@.len() ==> store_names(*self).contains((#[trigger] r@[i])@),
            forall|n: Seq<u8>|
                store_names(*self).contains(n) ==> exists|i: int|
                    0 <= i < r@.len() && (#[trigger] r@[i])@ == n,
    {
        self.inner.tree_names().iter().map(|iv| iv.to_vec()).collect()
    }

    /// Relies on sled::Db::open_tree: opens the named tree, creating an
    /// empty one when the name is new.
    #[verifier::external_body]
    pub fn open_tree(&mut self, name: &Vec<u8>) -> (r: Result<Tree, String>)
        ensures
            r matches Ok(t) ==> {
                &&& store_names(*final(self)) == store_names(*old(self)).insert(name@)
                &&& !store_names(*old(self)).contains(name@) ==> tree_entries(t) == Map::<
                    Seq<u8>,
                    Seq<u8>,
                >::empty()
            },
    {
        match self.inner.open_tree(name.as_slice()) {
            Ok(t) => Ok(Tree { inner: t }),
            Err(e) => Err(e.to_string()),
        }
    }

    /// Relies on sled::Db::drop_tree: removes the named tree and all its
    /// contents.
    #[verifier::external_body]
    pub fn drop_tree(&mut self, name: &Vec<u8>) -> (r: Result<bool, String>)
        ensures
            r is Ok ==> store_names(*final(self)) == store_names(*old(self)).remove(name@),
    {
        match self.inner.drop_tree(name.as_slice()) {
            Ok(b) => Ok(b),
            Err(e) => Err(e.to_string()),
        }
    }
}

/// Relies on rand's thread_rng with the Alphanumeric distribution: sixteen
/// bytes drawn from `0-9A-Za-z`. Nothing is assumed about which ones.
#[verifier::external_body]
pub fn random_token() -> (r: Vec<u8>)
    ensures
        r@.len() == 16,
        forall|i: int| 0 <= i < 16 ==> crate::keys::is_alnum(#[trigger] r@[i]),
{
    rand::Rng::sample_iter(rand::thread_rng(), &rand::distributions::Alphanumeric).take(
        16,
    ).collect()
}

/// Relies on std::time::SystemTime::now: the clock reading as whole seconds
/// since the Unix epoch, or zero when the clock reads before it. Nothing is
/// assumed about the value.
#[verifier::external_body]
pub fn unix_now_secs() -> u64 {
    match std::time::SystemTime::now().duration_since(std::time::UNIX_EPOCH) {
        Ok(d) => d.as_secs(),
        Err(_) => 0,
    }
}

/// Relies on String::from_utf8: returns the string whose UTF-8 encoding is
/// exactly the given bytes, and fails exactly when no such string exists.
#[verifier::external_body]
pub fn bytes_to_string(v: Vec<u8>) -> (r: Result<String, ()>)
    ensures
        r matches Ok(s) ==> vstd::utf8::encode_utf8(s@) == v@,
        r is Err ==> !(exists|t: Seq<char>| vstd::utf8::encode_utf8(t) == v@),
{
    match String::from_utf8(v) {
        Ok(s) => Ok(s),
        Err(_) => Err(()),
    }
}

} // verus!

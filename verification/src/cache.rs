//! The ledger's bounded cache of documents, least recently used out first.

use vstd::prelude::*;
use crate::root::DocImage;
use crate::root::ImageView;

verus! {

/// `lru::LruCache`, whose inside the ledger never looks at.
#[verifier::external_type_specification]
#[verifier::external_body]
#[verifier::reject_recursive_types(K)]
#[verifier::reject_recursive_types(V)]
#[verifier::reject_recursive_types(S)]
pub struct ExLruCache<K, V, S>(lru::LruCache<K, V, S>);

/// The hasher that an `LruCache` is made with by default.
#[verifier::external_type_specification]
#[verifier::external_body]
pub struct ExCacheHasher(lru::DefaultHasher);

/// One cached document: its uuid and its image.
pub type CacheEntry = (Seq<char>, ImageView);

/// What the cache holds, most recently used first.
pub uninterp spec fn cache_entries(c: lru::LruCache<String, DocImage>) -> Seq<CacheEntry>;

/// How many documents the cache was made to hold at most.
pub uninterp spec fn cache_limit(c: lru::LruCache<String, DocImage>) -> nat;

/// Whether `entries` has an entry for `key`.
pub open spec fn has_key(entries: Seq<CacheEntry>, key: Seq<char>) -> bool {
    exists|i: int| 0 <= i < entries.len() && (#[trigger] entries[i]).0 == key
}

/// The image that `entries` holds for `key`.
pub open spec fn value_of(entries: Seq<CacheEntry>, key: Seq<char>) -> ImageView {
    entries[choose|i: int| 0 <= i < entries.len() && (#[trigger] entries[i]).0 == key].1
}

/// `entries` without its entries for `key`.
pub open spec fn without_key(entries: Seq<CacheEntry>, key: Seq<char>) -> Seq<CacheEntry> {
    entries.filter(|e: CacheEntry| e.0 != key)
}

/// `entries` after `key` was used: its entry, if any, moves to the front.
pub open spec fn touched(entries: Seq<CacheEntry>, key: Seq<char>) -> Seq<CacheEntry> {
    if has_key(entries, key) {
        seq![(key, value_of(entries, key))] + without_key(entries, key)
    } else {
        entries
    }
}

/// `entries` after `image` was put in for `key` in a cache that holds at
/// most `limit`: the new entry is at the front; an entry it replaces is
/// gone; failing that, a full cache loses its last entry.
pub open spec fn put_into(
    entries: Seq<CacheEntry>,
    limit: nat,
    key: Seq<char>,
    image: ImageView,
) -> Seq<CacheEntry> {
    if has_key(entries, key) {
        seq![(key, image)] + without_key(entries, key)
    } else if entries.len() == limit && entries.len() > 0 {
        seq![(key, image)] + entries.drop_last()
    } else {
        seq![(key, image)] + entries
    }
}

/// What `get` and `pop` hand out for `key`: the image held for it, if any.
pub open spec fn found(entries: Seq<CacheEntry>, key: Seq<char>, r: Option<DocImage>) -> bool {
    match r {
        Some(image) => has_key(entries, key) && image@ == value_of(entries, key),
        None => !has_key(entries, key),
    }
}

/// What `get` lends for `key`: the image held for it, if any.
pub open spec fn lent(entries: Seq<CacheEntry>, key: Seq<char>, r: Option<&DocImage>) -> bool {
    match r {
        Some(image) => has_key(entries, key) && image@ == value_of(entries, key),
        None => !has_key(entries, key),
    }
}

/// Whatever is put in for a key is what the cache then holds for it.
pub proof fn lemma_put_then_found(
    entries: Seq<CacheEntry>,
    limit: nat,
    key: Seq<char>,
    image: ImageView,
)
    ensures
        has_key(put_into(entries, limit, key, image), key),
        put_into(entries, limit, key, image)[0] == (key, image),
        value_of(put_into(entries, limit, key, image), key) == image,
{
    let after = put_into(entries, limit, key, image);
    assert(after[0] == (key, image));
    let i = choose|i: int| 0 <= i < after.len() && (#[trigger] after[i]).0 == key;
    if i > 0 {
        if has_key(entries, key) {
            lemma_pop_then_absent(entries, key);
            let rest = without_key(entries, key);
            assert(rest[i - 1] == after[i]);
        } else if entries.len() == limit && entries.len() > 0 {
            assert(entries.drop_last()[i - 1] == after[i]);
            assert(entries[i - 1] == after[i]);
        } else {
            assert(entries[i - 1] == after[i]);
        }
    }
}

/// Once a key is popped the cache holds nothing for it.
pub proof fn lemma_pop_then_absent(entries: Seq<CacheEntry>, key: Seq<char>)
    ensures
        !has_key(without_key(entries, key), key),
{
    let rest = without_key(entries, key);
    let keep = |e: CacheEntry| e.0 != key;
    if has_key(rest, key) {
        let i = choose|i: int| 0 <= i < rest.len() && (#[trigger] rest[i]).0 == key;
        entries.lemma_filter_pred(keep, i);
    }
}

/// The ledger's cache: at most `limit` document images by uuid.
pub struct DocCache {
    inner: lru::LruCache<String, DocImage>,
}

/// The mathematical content of a `DocCache`.
pub ghost struct CacheView {
    pub entries: Seq<CacheEntry>,
    pub limit: nat,
}

impl View for DocCache {
    type V = CacheView;

    closed spec fn view(&self) -> CacheView {
        CacheView { entries: cache_entries(self.inner), limit: cache_limit(self.inner) }
    }
}

/// `LruCache::new`: an empty cache that holds at most `limit` entries.
#[verifier::external_body]
fn lru_new(limit: usize) -> (c: lru::LruCache<String, DocImage>)
    requires
        limit > 0,
    ensures
        cache_entries(c) == Seq::<CacheEntry>::empty(),
        cache_limit(c) == limit,
{
    lru::LruCache::new(std::num::NonZeroUsize::new(limit).unwrap())
}

/// `LruCache::contains`: whether the key has an entry; no entry moves.
#[verifier::external_body]
fn lru_contains(c: &lru::LruCache<String, DocImage>, key: &str) -> (b: bool)
    ensures
        b == has_key(cache_entries(*c), key@),
{
    c.contains(key)
}

/// `LruCache::get`: the image held for the key, whose entry moves to the
/// front.
#[verifier::external_body]
fn lru_get<'a>(c: &'a mut lru::LruCache<String, DocImage>, key: &str) -> (r: Option<&'a DocImage>)
    ensures
        lent(cache_entries(*old(c)), key@, r),
        cache_entries(*final(c)) == touched(cache_entries(*old(c)), key@),
        cache_limit(*final(c)) == cache_limit(*old(c)),
{
    c.get(key)
}

/// `LruCache::put`: the entry goes to the front; it replaces the key's
/// earlier entry, or else, in a full cache, the last entry leaves.
#[verifier::external_body]
fn lru_put(c: &mut lru::LruCache<String, DocImage>, key: String, image: DocImage)
    ensures
        cache_entries(*final(c)) == put_into(
            cache_entries(*old(c)),
            cache_limit(*old(c)),
            key@,
            image@,
        ),
        cache_limit(*final(c)) == cache_limit(*old(c)),
{
    let _ = c.put(key, image);
}

/// `LruCache::pop_entry`: the key's entry leaves the cache and its image
/// is handed out.
#[verifier::external_body]
fn lru_pop_entry(c: &mut lru::LruCache<String, DocImage>, key: &str) -> (r: Option<DocImage>)
    ensures
        found(cache_entries(*old(c)), key@, r),
        cache_entries(*final(c)) == without_key(cache_entries(*old(c)), key@),
        cache_limit(*final(c)) == cache_limit(*old(c)),
{
    c.pop_entry(key).map(|entry| entry.1)
}

impl DocCache {
    /// An empty cache for at most `limit` documents.
    pub fn new(limit: usize) -> (c: Self)
        requires
            limit > 0,
        ensures
            c@.entries == Seq::<CacheEntry>::empty(),
            c@.limit == limit,
    {
        DocCache { inner: lru_new(limit) }
    }

    /// Whether the cache holds a document for `key`.
    pub fn contains(&self, key: &str) -> (b: bool)
        ensures
            b == has_key(self@.entries, key@),
    {
        lru_contains(&self.inner, key)
    }

    /// The document held for `key`, which counts as a use of it.
    pub fn get(&mut self, key: &str) -> (r: Option<DocImage>)
        ensures
            found(old(self)@.entries, key@, r),
            final(self)@.entries == touched(old(self)@.entries, key@),
            final(self)@.limit == old(self)@.limit,
    {
        match lru_get(&mut self.inner, key) {
            Some(image) => Some(image.duplicate()),
            None => None,
        }
    }

    /// Puts `image` in for `key`.
    pub fn put(&mut self, key: String, image: DocImage)
        ensures
            final(self)@.entries == put_into(old(self)@.entries, old(self)@.limit, key@, image@),
            final(self)@.limit == old(self)@.limit,
    {
        lru_put(&mut self.inner, key, image)
    }

    /// Takes the document held for `key` out of the cache.
    pub fn pop(&mut self, key: &str) -> (r: Option<DocImage>)
        ensures
            found(old(self)@.entries, key@, r),
            final(self)@.entries == without_key(old(self)@.entries, key@),
            final(self)@.limit == old(self)@.limit,
    {
        lru_pop_entry(&mut self.inner, key)
    }
}

} // verus!

//! The ledger: the documents of one label, encrypted under a key derived
//! from the ledger's master passphrase, with a bounded cache of the
//! documents it has decrypted.

use vstd::prelude::*;
use vstd::string::StringExecFns;
use std::marker::PhantomData;
use crate::cache::has_key;
use crate::cache::lemma_put_then_found;
use crate::cache::put_into;
use crate::cache::touched;
use crate::cache::value_of;
use crate::cache::without_key;
use crate::cache::CacheEntry;
use crate::cache::DocCache;
use crate::cipher::password_accepted;
use crate::cipher::decrypt_with;
use crate::cipher::encrypt_with;
use crate::cipher::bcrypt_hash;
use crate::cipher::password_matches;
use crate::document::data_dir;
use crate::document::doc_of;
use crate::document::no_directory_message;
use crate::document::not_found_message;
use crate::document::remove_failed_message;
use crate::document::DocView;
use crate::document::Document;
use crate::document::Payload;
use crate::document::blank_encoding;
use crate::document::decoding_gave;
use crate::document::encodes_to;
use crate::document::encoding_gave;
use crate::document::unseal_outcome;
use crate::document::unsealed_by_decoding;
use crate::cipher::is_decrypt_failure;
use crate::document::decrypted_parse_failed_message;
use crate::error::fails_as;
use crate::error::fails_with;
use crate::error::LocalLedgerError;
use crate::error::LocalLedgerErrorType;
use crate::ident::generate_id;
use crate::json::json_object;
use crate::json::json_text_field;
use crate::json::lemma_short_name_is_free;
use crate::json::pairs;
use crate::json::read_text_field;
use crate::json::write_text_fields;
use crate::ident::is_id;
use crate::names::ends_with;
use crate::names::strip_suffix;
use crate::names::with_suffix;
use crate::names::without_tail;
use crate::revision::texts;
use crate::root::copy_bytes;
use crate::root::DocImage;
use crate::root::ImageView;
use crate::root::RootView;
use crate::root::StoreRoot;

verus! {

/// The uuid of the document that holds a ledger's metadata.
pub const META_DOC_UUID: &'static str = "META_DOC";

/// How many documents a ledger keeps in its cache.
pub const CACHE_LIMIT: usize = 100;

/// The uuid of the metadata document.
pub open spec fn meta_uuid() -> Seq<char> {
    "META_DOC"@
}

/// The name of the field that holds the passphrase hash.
pub open spec fn hash_field() -> Seq<char> {
    "pw_hash"@
}

/// The suffix of the uuid under which a document waits during a merge.
pub open spec fn temp_suffix() -> Seq<char> {
    "__temp"@
}

/// The suffix of the uuid of a conflict sibling.
pub open spec fn conflict_suffix() -> Seq<char> {
    "__conflict"@
}

/// The suffix of the label of the directory that holds conflict siblings.
pub open spec fn conflicts_dir_suffix() -> Seq<char> {
    "_conflicts"@
}

pub open spec fn incorrect_password_message() -> Seq<char> {
    "Incorrect password"@
}

pub open spec fn empty_label_message() -> Seq<char> {
    "Label cannot be empty"@
}

pub open spec fn label_in_use_message() -> Seq<char> {
    "Labels must be unique"@
}

pub open spec fn entry_missing_message() -> Seq<char> {
    "Entry name not found"@
}

/// The message of a ledger that could not be founded because its
/// passphrase could not be hashed.
pub open spec fn creation_failed_message(why: Seq<char>) -> Seq<char> {
    "LocalLedger creation failed: "@ + why
}

pub open spec fn missing_hash_message() -> Seq<char> {
    "missing field `pw_hash`"@
}

/// The fields of a metadata document for the passphrase hash `hash`.
pub open spec fn meta_fields(hash: Seq<char>) -> Seq<(Seq<char>, Seq<char>)> {
    seq![(hash_field(), hash)]
}

/// What the metadata document holds: the bcrypt hash of the master
/// passphrase.
#[derive(Debug)]
pub struct LocalLedgerMetaData {
    pub pw_hash: String,
}

impl Payload for LocalLedgerMetaData {
    fn encode(&self) -> (r: Result<Vec<u8>, String>)
        ensures
            r matches Ok(bytes) && bytes@ == json_object(meta_fields(self.pw_hash@))
                && json_text_field(bytes@, hash_field()) == Some(self.pw_hash@),
    {
        let mut fields: Vec<(String, String)> = Vec::new();
        fields.push(("pw_hash".to_owned(), self.pw_hash.clone()));
        proof {
            reveal_strlit("pw_hash");
            lemma_short_name_is_free("pw_hash"@);
        }
        let bytes = write_text_fields(&fields);
        proof {
            assert(pairs(fields@) =~= meta_fields(self.pw_hash@));
            assert(pairs(fields@)[0] == (hash_field(), self.pw_hash@));
        }
        Ok(bytes)
    }

    fn decode(bytes: &Vec<u8>) -> (r: Result<Self, String>)
        ensures
            match json_text_field(bytes@, hash_field()) {
                Some(hash) => r matches Ok(meta) && meta.pw_hash@ == hash,
                None => r matches Err(why) && why@ == missing_hash_message(),
            },
    {
        match read_text_field(bytes, "pw_hash") {
            Some(pw_hash) => Ok(LocalLedgerMetaData { pw_hash }),
            None => Err("missing field `pw_hash`".to_owned()),
        }
    }

    fn blank() -> (r: Self)
        ensures
            r.pw_hash@ == Seq::<char>::empty(),
    {
        LocalLedgerMetaData { pw_hash: String::new() }
    }
}

/// The image of a document that was never stored.
pub open spec fn unwritten(label: Seq<char>, uuid: Seq<char>) -> ImageView {
    ImageView {
        label,
        uuid,
        rev: Seq::empty(),
        data: Seq::empty(),
        seq: 0,
        encrypted_data: Seq::empty(),
        encrypted: false,
        has_been_decrypted: false,
        rev_history: Seq::empty(),
    }
}

/// The image that the store protocol writes for the document with image
/// `base` when it is stored encrypted: the chain advances to `rev`, the
/// ciphertext is `sealed`, and `blank` stands where the payload would.
pub open spec fn resealed(
    base: ImageView,
    sealed: Seq<u8>,
    blank: Seq<u8>,
    rev: Seq<char>,
) -> ImageView {
    ImageView {
        label: base.label,
        uuid: base.uuid,
        rev,
        data: blank,
        seq: base.seq + 1,
        encrypted_data: sealed,
        encrypted: true,
        has_been_decrypted: false,
        rev_history: if base.seq + 1 > 1 {
            base.rev_history.push(base.rev)
        } else {
            base.rev_history
        },
    }
}

/// The image of a document after its ciphertext was decrypted to `plain`.
pub open spec fn opened_image(image: ImageView, plain: Seq<u8>) -> ImageView {
    ImageView { data: plain, has_been_decrypted: true, ..image }
}

/// The first image of a metadata document for passphrase hash `hash`.
pub open spec fn first_meta_image(name: Seq<char>, rev: Seq<char>, hash: Seq<char>) -> ImageView {
    ImageView {
        rev,
        data: json_object(meta_fields(hash)),
        seq: 1,
        ..unwritten(name, meta_uuid())
    }
}

/// The passphrase hash that the metadata document of ledger `name` holds,
/// where the tree has a readable one.
pub open spec fn stored_hash(root: RootView, name: Seq<char>) -> Option<Seq<char>> {
    match root.file(name, meta_uuid()) {
        Some(image) => if image.encrypted {
            None
        } else {
            json_text_field(image.data, hash_field())
        },
        None => None,
    }
}

/// The uuid under which document `uuid` waits during a merge.
pub open spec fn temp_of(uuid: Seq<char>) -> Seq<char> {
    uuid + temp_suffix()
}

/// The uuid of the conflict sibling of document `uuid`.
pub open spec fn conflict_of(uuid: Seq<char>) -> Seq<char> {
    uuid + conflict_suffix()
}

/// The label of the directory that holds the conflict siblings of ledger
/// `name`.
pub open spec fn conflicts_dir(name: Seq<char>) -> Seq<char> {
    name + conflicts_dir_suffix()
}

/// A ledger.
pub struct LocalLedger<T> {
    name: String,
    doc_cache: DocCache,
    meta_doc: Document<LocalLedgerMetaData>,
    pw: String,
    payload: PhantomData<T>,
}

/// The mathematical content of a `LocalLedger`.
pub ghost struct LedgerView {
    /// The label of the ledger's directory.
    pub name: Seq<char>,
    /// The master passphrase.
    pub pw: Seq<char>,
    /// The cached documents, most recently used first.
    pub cache: Seq<CacheEntry>,
    /// How many documents the cache holds at most.
    pub limit: nat,
    /// The revision chain of the metadata document the ledger was opened
    /// with.
    pub meta_chain: Seq<Seq<char>>,
    /// The passphrase hash that the metadata document holds.
    pub meta_hash: Seq<char>,
}

impl LedgerView {
    /// The ledger with `cache` for its cache.
    pub open spec fn with_cache(self, cache: Seq<CacheEntry>) -> LedgerView {
        LedgerView { cache, ..self }
    }

    /// Whether `entry` names a document on disk or in the cache.
    pub open spec fn in_use(self, root: RootView, entry: Seq<char>) -> bool {
        has_key(self.cache, entry) || root.files.contains_key((self.name, entry))
    }

    /// Whether the cache holds the decrypted document `uuid`.
    pub open spec fn cache_hit(self, uuid: Seq<char>) -> bool {
        has_key(self.cache, uuid) && value_of(self.cache, uuid).has_been_decrypted
    }
}

impl<T> View for LocalLedger<T> {
    type V = LedgerView;

    closed spec fn view(&self) -> LedgerView {
        LedgerView {
            name: self.name@,
            pw: self.pw@,
            cache: self.doc_cache@.entries,
            limit: self.doc_cache@.limit,
            meta_chain: self.meta_doc@.chain(),
            meta_hash: self.meta_doc@.data.pw_hash@,
        }
    }
}

/// Ledger `name` was founded in the tree `root0` under passphrase `pw`:
/// the tree `root1` has its first metadata document, with revision `rev`
/// and passphrase hash `hash`.
pub open spec fn founded(
    root0: RootView,
    name: Seq<char>,
    pw: Seq<char>,
    root1: RootView,
    ledger: LedgerView,
    hash: Seq<char>,
    rev: Seq<char>,
) -> bool {
    &&& is_id(rev)
    &&& root1 == root0.written(name, meta_uuid(), first_meta_image(name, rev, hash))
    &&& stored_hash(root1, name) == Some(hash)
    &&& ledger == (LedgerView {
        name,
        pw,
        cache: Seq::empty(),
        limit: CACHE_LIMIT as nat,
        meta_chain: seq![rev],
        meta_hash: hash,
    })
}

/// What opening ledger `name` with passphrase `pw` does to the tree
/// `root0`, and what it returns.
///
/// A tree with a readable metadata document stays as it is, and the ledger
/// opens exactly when bcrypt accepts the passphrase for the stored hash.
/// Otherwise a metadata document is created and stored.
pub open spec fn open_ledger_outcome<T>(
    root0: RootView,
    name: Seq<char>,
    pw: Seq<char>,
    root1: RootView,
    r: Result<LocalLedger<T>, LocalLedgerError>,
) -> bool {
    match stored_hash(root0, name) {
        Some(hash) => {
            &&& root1 == root0
            &&& if password_accepted(pw, hash) {
                r matches Ok(ledger) && ledger@ == (LedgerView {
                    name,
                    pw,
                    cache: Seq::empty(),
                    limit: CACHE_LIMIT as nat,
                    meta_chain: root0.files[(name, meta_uuid())].chain(),
                    meta_hash: hash,
                })
            } else {
                fails_with(r, LocalLedgerErrorType::Default, incorrect_password_message())
            }
        },
        None => match r {
            Ok(ledger) => exists|hash: Seq<char>, rev: Seq<char>|
                founded(root0, name, pw, root1, ledger@, hash, rev),
            Err(e) => {
                ||| e.err_type == LocalLedgerErrorType::Default && root1 == root0 && exists|
                    why: Seq<char>,
                | e.message@ == #[trigger] creation_failed_message(why)
                ||| e.is(LocalLedgerErrorType::Confict, crate::document::conflict_message())
                    && root0.files.contains_key((name, meta_uuid())) && root1 == root0.with_dir(
                    name,
                )
            },
        },
    }
}

/// The readable metadata document of ledger `ledger_name`, if the tree has
/// one.
pub fn try_load_meta_doc(root: &StoreRoot, ledger_name: &str) -> (r: Option<
    Document<LocalLedgerMetaData>,
>)
    ensures
        match stored_hash(root@, ledger_name@) {
            Some(hash) => r matches Some(doc) && doc@.data.pw_hash@ == hash && doc@ == doc_of(
                root@.files[(ledger_name@, meta_uuid())],
                doc@.data,
            ),
            None => r is None,
        },
{
    match root.read_file(ledger_name, META_DOC_UUID) {
        None => None,
        Some(image) => {
            let decoded = LocalLedgerMetaData::decode(&image.data);
            match Document::open_image(image, decoded) {
                Ok(doc) => Some(doc),
                Err(_) => None,
            }
        },
    }
}

/// A metadata document for ledger `ledger_name`, never stored.
pub fn create_meta_doc(ledger_name: &str) -> (doc: Document<LocalLedgerMetaData>)
    ensures
        doc@ == DocView::fresh(ledger_name@, meta_uuid(), doc@.data),
{
    let mut meta_doc = Document::<LocalLedgerMetaData>::new(ledger_name);
    meta_doc.append_uuid(META_DOC_UUID);
    meta_doc
}

/// Document `uuid` was read from its file `image`, whose ciphertext
/// decrypted to `plain`: the cache holds the opened document.
pub open spec fn read_from_file(
    before: LedgerView,
    uuid: Seq<char>,
    image: ImageView,
    plain: Seq<u8>,
    after: LedgerView,
) -> bool {
    after == before.with_cache(
        put_into(touched(before.cache, uuid), before.limit, uuid, opened_image(image, plain)),
    )
}

/// What decoding gave, as the result of a read: the payload, or the
/// failure that says why there is none.
pub open spec fn payload_outcome<T>(
    decoded: Result<T, String>,
    r: Result<T, LocalLedgerError>,
) -> bool {
    match decoded {
        Ok(data) => r == Ok::<T, LocalLedgerError>(data),
        Err(why) => fails_with(
            r,
            LocalLedgerErrorType::Default,
            decrypted_parse_failed_message(why@),
        ),
    }
}

/// The result of a read is what decoding the bytes `bytes` gave.
pub open spec fn decoded_from<T: Payload>(bytes: Seq<u8>, r: Result<T, LocalLedgerError>) -> bool {
    exists|decoded: Result<T, String>|
        decoding_gave(bytes, decoded) && #[trigger] payload_outcome(decoded, r)
}

/// What keeping an opened document does: the file image `image` of
/// document `uuid`, whose ciphertext decrypted to `plain`, enters the cache
/// opened where `plain` decoded, and is handed out; where `plain` did not
/// decode, nothing changes.
pub open spec fn keep_outcome<T>(
    before: LedgerView,
    uuid: Seq<char>,
    image: ImageView,
    plain: Seq<u8>,
    decoded: Result<T, String>,
    after: LedgerView,
    r: Result<DocImage, LocalLedgerError>,
) -> bool {
    match decoded {
        Ok(_) => {
            &&& r matches Ok(opened)
            &&& opened@ == opened_image(image, plain)
            &&& after == before.with_cache(
                put_into(before.cache, before.limit, uuid, opened_image(image, plain)),
            )
        },
        Err(why) => after == before && fails_with(
            r,
            LocalLedgerErrorType::Default,
            decrypted_parse_failed_message(why@),
        ),
    }
}

/// What reading document `uuid` does to the ledger, and what it returns.
///
/// A decrypted document in the cache is used where it is, and the payload
/// is what decoding its bytes gives. Otherwise the file is decrypted; where
/// that fails, or the decrypted bytes do not decode, the read fails and
/// the cache keeps no copy; else the cache holds the opened document, and
/// the payload is what decoding the decrypted bytes gives.
pub open spec fn read_outcome<T: Payload>(
    before: LedgerView,
    root: RootView,
    uuid: Seq<char>,
    after: LedgerView,
    r: Result<T, LocalLedgerError>,
) -> bool {
    let used = touched(before.cache, uuid);
    if before.cache_hit(uuid) {
        after == before.with_cache(used) && decoded_from(value_of(before.cache, uuid).data, r)
    } else {
        match root.file(before.name, uuid) {
            None => after == before.with_cache(used) && fails_with(
                r,
                LocalLedgerErrorType::Default,
                not_found_message(uuid),
            ),
            Some(image) => {
                ||| after == before.with_cache(used) && fails_as(r, LocalLedgerErrorType::Default)
                ||| exists|plain: Seq<u8>|
                    read_from_file(before, uuid, image, plain, after) && #[trigger] decoded_from(
                        plain,
                        r,
                    )
            },
        }
    }
}

/// Entry `entry` was created with ciphertext `sealed`, default payload
/// `blank` and revision `rev`: its first image is on disk and in the cache.
pub open spec fn created_with(
    before: LedgerView,
    root0: RootView,
    entry: Seq<char>,
    sealed: Seq<u8>,
    blank: Seq<u8>,
    rev: Seq<char>,
    after: LedgerView,
    root1: RootView,
) -> bool {
    let image = resealed(unwritten(before.name, entry), sealed, blank, rev);
    &&& is_id(rev)
    &&& root1 == root0.written(before.name, entry, image)
    &&& after == before.with_cache(put_into(before.cache, before.limit, entry, image))
}

/// What creating entry `entry` does to the ledger and the tree, and what
/// it returns.
pub open spec fn create_outcome(
    before: LedgerView,
    root0: RootView,
    entry: Seq<char>,
    after: LedgerView,
    root1: RootView,
    r: Result<String, LocalLedgerError>,
) -> bool {
    if entry.len() == 0 {
        after == before && root1 == root0 && fails_with(
            r,
            LocalLedgerErrorType::Default,
            empty_label_message(),
        )
    } else if before.in_use(root0, entry) {
        after == before && root1 == root0 && fails_with(
            r,
            LocalLedgerErrorType::Default,
            label_in_use_message(),
        )
    } else {
        match r {
            Ok(uuid) => uuid@ == entry && exists|sealed: Seq<u8>, blank: Seq<u8>, rev: Seq<char>|
                created_with(before, root0, entry, sealed, blank, rev, after, root1),
            Err(e) => e.err_type == LocalLedgerErrorType::Default && after == before && root1
                == root0,
        }
    }
}

/// What removing entry `entry` does to the ledger and the tree, and what
/// it returns.
pub open spec fn remove_outcome(
    before: LedgerView,
    root0: RootView,
    entry: Seq<char>,
    after: LedgerView,
    root1: RootView,
    r: Result<(), LocalLedgerError>,
) -> bool {
    &&& root1 == root0.with_dir(before.name).without(before.name, entry)
    &&& if root0.files.contains_key((before.name, entry)) {
        r is Ok && after == before.with_cache(without_key(before.cache, entry))
    } else {
        after == before && fails_with(
            r,
            LocalLedgerErrorType::Default,
            remove_failed_message(entry),
        )
    }
}

/// The image that an update of entry `entry` starts from: the cached one
/// when the cache holds the entry decrypted, the file otherwise.
pub open spec fn update_base(before: LedgerView, root0: RootView, entry: Seq<char>) -> Option<
    ImageView,
> {
    if before.cache_hit(entry) {
        Some(value_of(before.cache, entry))
    } else {
        root0.file(before.name, entry)
    }
}

/// Entry `entry` was updated: the document it started from, opened with
/// `plain` where it came from the file, was stored encrypted with
/// ciphertext `sealed`, default payload `blank` and revision `rev`, and
/// is at the front of the cache.
pub open spec fn updated_with(
    before: LedgerView,
    root0: RootView,
    entry: Seq<char>,
    plain: Seq<u8>,
    sealed: Seq<u8>,
    blank: Seq<u8>,
    rev: Seq<char>,
    after: LedgerView,
    root1: RootView,
) -> bool {
    let base = update_base(before, root0, entry);
    let start = if before.cache_hit(entry) {
        base->0
    } else {
        opened_image(base->0, plain)
    };
    let image = resealed(start, sealed, blank, rev);
    &&& base is Some
    &&& is_id(rev)
    &&& !start.chain().contains(rev)
    &&& root1 == root0.written(start.label, start.uuid, image)
    &&& after.cache.len() > 0
    &&& after.cache[0] == (entry, image)
    &&& has_key(after.cache, entry)
    &&& value_of(after.cache, entry) == image
}

/// What updating entry `entry` does to the ledger and the tree, and what
/// it returns.
///
/// An entry that is neither on disk nor in the cache is refused. A
/// failure leaves the tree as it was, but for the directory that a
/// refused store creates, and leaves the cache as the look-up of the entry
/// left it.
pub open spec fn update_outcome(
    before: LedgerView,
    root0: RootView,
    entry: Seq<char>,
    after: LedgerView,
    root1: RootView,
    r: Result<(), LocalLedgerError>,
) -> bool {
    &&& after.name == before.name
    &&& after.pw == before.pw
    &&& after.limit == before.limit
    &&& after.meta_chain == before.meta_chain
    &&& after.meta_hash == before.meta_hash
    &&& if !before.in_use(root0, entry) {
        after == before && root1 == root0 && fails_with(
            r,
            LocalLedgerErrorType::Default,
            entry_missing_message(),
        )
    } else {
        match r {
            Ok(_) => exists|plain: Seq<u8>, sealed: Seq<u8>, blank: Seq<u8>, rev: Seq<char>|
                updated_with(before, root0, entry, plain, sealed, blank, rev, after, root1),
            Err(e) => {
                &&& {
                    ||| e.err_type == LocalLedgerErrorType::Default && root1 == root0
                    ||| e.is(LocalLedgerErrorType::Confict, crate::document::conflict_message())
                        && update_base(before, root0, entry) is Some && root1 == root0.with_dir(
                        update_base(before, root0, entry)->0.label,
                    )
                }
                &&& {
                    ||| after.cache == touched(before.cache, entry)
                    ||| root0.file(before.name, entry) is Some && exists|plain: Seq<u8>|
                        read_from_file(
                            before,
                            entry,
                            root0.file(before.name, entry)->0,
                            plain,
                            after,
                        )
                }
            },
        }
    }
}

/// The entries of a listing: every stem but the metadata document's.
pub open spec fn entry_labels(listing: Seq<Seq<char>>) -> Seq<Seq<char>>
    decreases listing.len(),
{
    if listing.len() == 0 {
        Seq::empty()
    } else if listing.last() == meta_uuid() {
        entry_labels(listing.drop_last())
    } else {
        entry_labels(listing.drop_last()).push(listing.last())
    }
}

/// The entries that a listing of the conflict directory names: the stems
/// that are conflict siblings, without the suffix.
pub open spec fn conflict_labels(listing: Seq<Seq<char>>) -> Seq<Seq<char>>
    decreases listing.len(),
{
    if listing.len() == 0 {
        Seq::empty()
    } else if ends_with(listing.last(), conflict_suffix()) {
        conflict_labels(listing.drop_last()).push(
            without_tail(listing.last(), conflict_suffix().len()),
        )
    } else {
        conflict_labels(listing.drop_last())
    }
}

/// The entries name exactly the stems of the listing other than the
/// metadata document's.
pub proof fn law_entry_labels(listing: Seq<Seq<char>>)
    ensures
        entry_labels(listing).to_set() == listing.to_set().remove(meta_uuid()),
    decreases listing.len(),
{
    let labels = entry_labels(listing);
    if listing.len() > 0 {
        let rest = listing.drop_last();
        law_entry_labels(rest);
        let last = listing.last();
        assert forall|s: Seq<char>| labels.to_set().contains(s) <==> listing.to_set().remove(
            meta_uuid(),
        ).contains(s) by {
            let sub = entry_labels(rest);
            assert(sub.to_set().contains(s) <==> rest.to_set().remove(meta_uuid()).contains(s));
            if rest.contains(s) {
                let j = choose|j: int| 0 <= j < rest.len() && rest[j] == s;
                assert(listing[j] == s);
            }
            if listing.contains(s) {
                let j = choose|j: int| 0 <= j < listing.len() && listing[j] == s;
                if j < rest.len() {
                    assert(rest[j] == s);
                }
            }
            if last != meta_uuid() {
                if sub.contains(s) {
                    let j = choose|j: int| 0 <= j < sub.len() && sub[j] == s;
                    assert(labels[j] == s);
                }
                if labels.contains(s) {
                    let j = choose|j: int| 0 <= j < labels.len() && labels[j] == s;
                    if j < sub.len() {
                        assert(sub[j] == s);
                    }
                }
                assert(labels[sub.len() as int] == last);
                assert(listing[rest.len() as int] == last);
            }
        }
    }
    assert(labels.to_set() =~= listing.to_set().remove(meta_uuid()));
}

/// Where no stem is listed twice, no entry is.
pub proof fn law_entries_are_listed_once(listing: Seq<Seq<char>>)
    requires
        listing.no_duplicates(),
    ensures
        entry_labels(listing).no_duplicates(),
    decreases listing.len(),
{
    if listing.len() > 0 {
        let rest = listing.drop_last();
        let last = listing.last();
        law_entries_are_listed_once(rest);
        law_entry_labels(rest);
        let sub = entry_labels(rest);
        if last != meta_uuid() {
            if sub.contains(last) {
                assert(sub.to_set().contains(last));
                assert(rest.to_set().contains(last));
                let j = choose|j: int| 0 <= j < rest.len() && rest[j] == last;
                assert(listing[j] == listing[listing.len() - 1]);
            }
            let all = sub.push(last);
            assert forall|i: int, j: int| 0 <= i < all.len() && 0 <= j < all.len() && i
                != j implies all[i] != all[j] by {
                if i < sub.len() && j < sub.len() {
                    assert(sub[i] != sub[j]);
                } else if i < sub.len() {
                    assert(sub.contains(sub[i]));
                } else {
                    assert(sub.contains(sub[j]));
                }
            }
        }
    }
}

/// What looking up the conflict sibling of entry `entry` gives.
pub open spec fn conflict_outcome<T: Payload>(
    ledger: LedgerView,
    root: RootView,
    entry: Seq<char>,
    r: Result<Document<T>, LocalLedgerError>,
) -> bool {
    match root.file(conflicts_dir(ledger.name), conflict_of(entry)) {
        None => fails_with(
            r,
            LocalLedgerErrorType::Default,
            not_found_message(conflict_of(entry)),
        ),
        Some(image) => sibling_opened(image, r),
    }
}

/// The conflict sibling with file image `image` was opened: decrypting
/// failed, or what decoding the decrypted bytes gave decided.
pub open spec fn sibling_opened<T: Payload>(
    image: ImageView,
    r: Result<Document<T>, LocalLedgerError>,
) -> bool {
    ||| r matches Err(e) && is_decrypt_failure(e)
    ||| exists|plain: Seq<u8>| #[trigger] unsealed_by_decoding(image, plain, r)
}

/// The file `file` holds a sealed record of the payload `data`: it is
/// encrypted, the encoding of a default payload stands where the payload
/// would, and the payload has an encoding, which is what was encrypted.
pub open spec fn payload_sealed<T: Payload>(data: T, file: Option<ImageView>) -> bool {
    &&& file matches Some(image) && image.encrypted && blank_encoding::<T>(image.data)
    &&& exists|plain: Seq<u8>| #[trigger] encodes_to(data, plain)
}

/// The conflict sibling `sibling` of entry `entry` took the entry's place:
/// the entry's file and the sibling's are gone, and the sibling is stored
/// under the entry's name with ciphertext `sealed`, default payload `blank`
/// and revision `rev`.
pub open spec fn promoted_with(
    before: LedgerView,
    root0: RootView,
    entry: Seq<char>,
    sibling: ImageView,
    sealed: Seq<u8>,
    blank: Seq<u8>,
    rev: Seq<char>,
    root1: RootView,
) -> bool {
    let moved = ImageView { label: before.name, uuid: entry, ..sibling };
    &&& is_id(rev)
    &&& !sibling.chain().contains(rev)
    &&& root1 == root0.with_dir(before.name).without(before.name, entry).without(
        conflicts_dir(before.name),
        conflict_of(entry),
    ).written(before.name, entry, resealed(moved, sealed, blank, rev))
}

/// The cache `cache` is what a look-up of document `uuid` leaves of the
/// ledger's cache: the document's entry at the front, as it was where it
/// was there decrypted, and as opened from its file otherwise, if it could
/// be opened.
pub open spec fn looked_up(
    before: LedgerView,
    root: RootView,
    uuid: Seq<char>,
    cache: Seq<CacheEntry>,
) -> bool {
    ||| cache == touched(before.cache, uuid)
    ||| !before.cache_hit(uuid) && root.file(before.name, uuid) is Some && exists|plain: Seq<u8>|
        read_from_file(
            before,
            uuid,
            root.file(before.name, uuid)->0,
            plain,
            before.with_cache(cache),
        )
}

/// What resolving the conflict of entry `entry` does to the ledger and the
/// tree, and what it returns.
///
/// The entry is looked up, and so is its conflict sibling; a failure
/// leaves the tree as it was, but for the ledger's directory, which may
/// have been created. With `keep_original` the sibling is deleted.
/// Without it the sibling is stored in the entry's place, and the entry
/// leaves the cache.
pub open spec fn resolve_outcome(
    before: LedgerView,
    root0: RootView,
    entry: Seq<char>,
    keep_original: bool,
    after: LedgerView,
    root1: RootView,
    r: Result<(), LocalLedgerError>,
) -> bool {
    let place = (conflicts_dir(before.name), conflict_of(entry));
    &&& after.name == before.name
    &&& after.pw == before.pw
    &&& after.limit == before.limit
    &&& after.meta_chain == before.meta_chain
    &&& after.meta_hash == before.meta_hash
    &&& (!before.cache_hit(entry) && root0.file(before.name, entry) is None) ==> fails_with(
        r,
        LocalLedgerErrorType::Default,
        not_found_message(entry),
    )
    &&& match r {
        Ok(_) => root0.files.contains_key(place) && if keep_original {
            root1 == root0.without(place.0, place.1) && looked_up(before, root0, entry, after.cache)
        } else {
            (exists|sealed: Seq<u8>, blank: Seq<u8>, rev: Seq<char>|
                promoted_with(before, root0, entry, root0.files[place], sealed, blank, rev, root1))
                && !has_key(after.cache, entry)
        },
        Err(e) => e.err_type == LocalLedgerErrorType::Default && (root1 == root0 || root1
            == root0.with_dir(before.name)) && looked_up(before, root0, entry, after.cache),
    }
}

/// A ledger whose tree holds a passphrase hash opens exactly under the
/// passphrases that bcrypt accepts for the hash; under any other it fails
/// with the message for an incorrect password, and the tree stays as it
/// is either way. This holds of a ledger from the moment it was founded.
pub proof fn law_open_needs_the_passphrase<T>(
    root0: RootView,
    name: Seq<char>,
    hash: Seq<char>,
    pw: Seq<char>,
    root1: RootView,
    r: Result<LocalLedger<T>, LocalLedgerError>,
)
    requires
        stored_hash(root0, name) == Some(hash),
        open_ledger_outcome(root0, name, pw, root1, r),
    ensures
        root1 == root0,
        r is Ok <==> password_accepted(pw, hash),
        !password_accepted(pw, hash) ==> fails_with(
            r,
            LocalLedgerErrorType::Default,
            incorrect_password_message(),
        ),
{
}

/// The names that a listing gives are exactly the files of the ledger's
/// directory other than the metadata document; the metadata document is
/// never among them.
pub proof fn law_labels_are_the_entries(root: &StoreRoot, name: Seq<char>)
    ensures
        entry_labels(root.listing(name)).to_set() == root@.stems(name).remove(meta_uuid()),
        !entry_labels(root.listing(name)).contains(meta_uuid()),
{
    root.law_listing(name);
    law_entry_labels(root.listing(name));
    assert(!entry_labels(root.listing(name)).to_set().contains(meta_uuid()));
}

/// An entry that was created is in the ledger's directory, and an entry
/// that was removed is not; no other entry comes or goes.
pub proof fn law_create_and_remove_change_one_entry(
    before: LedgerView,
    root0: RootView,
    entry: Seq<char>,
    sealed: Seq<u8>,
    blank: Seq<u8>,
    rev: Seq<char>,
    after: LedgerView,
    root1: RootView,
    gone: LedgerView,
    root2: RootView,
    r: Result<(), LocalLedgerError>,
)
    requires
        created_with(before, root0, entry, sealed, blank, rev, after, root1),
        remove_outcome(after, root1, entry, gone, root2, r),
    ensures
        root1.stems(before.name) == root0.stems(before.name).insert(entry),
        r is Ok,
        root2.stems(before.name) == root0.stems(before.name).remove(entry),
        !has_key(gone.cache, entry),
{
    let name = before.name;
    let image = resealed(unwritten(name, entry), sealed, blank, rev);
    assert(root1.stems(name) =~= root0.stems(name).insert(entry));
    assert(root2.stems(name) =~= root0.stems(name).remove(entry));
    crate::cache::lemma_pop_then_absent(after.cache, entry);
}

/// A step in the life of a ledger's entries: an entry is created, or an
/// entry is removed.
pub ghost enum EntryStep {
    Create { entry: Seq<char> },
    Remove { entry: Seq<char> },
}

/// The entries that there are after the steps `steps`, taken in order,
/// where `start` were there before.
pub open spec fn entries_after(start: Set<Seq<char>>, steps: Seq<EntryStep>) -> Set<Seq<char>>
    decreases steps.len(),
{
    if steps.len() == 0 {
        start
    } else {
        match steps.last() {
            EntryStep::Create { entry } => entries_after(start, steps.drop_last()).insert(entry),
            EntryStep::Remove { entry } => entries_after(start, steps.drop_last()).remove(entry),
        }
    }
}

/// The step `step` was taken on ledger `name` without error, and took the
/// tree from `root0` to `root1`.
pub open spec fn step_taken(
    name: Seq<char>,
    step: EntryStep,
    root0: RootView,
    root1: RootView,
) -> bool {
    match step {
        EntryStep::Create { entry } => exists|
            before: LedgerView,
            sealed: Seq<u8>,
            blank: Seq<u8>,
            rev: Seq<char>,
            after: LedgerView,
        |
            before.name == name && #[trigger] created_with(
                before,
                root0,
                entry,
                sealed,
                blank,
                rev,
                after,
                root1,
            ),
        EntryStep::Remove { entry } => exists|before: LedgerView, after: LedgerView|
            before.name == name && #[trigger] remove_outcome(
                before,
                root0,
                entry,
                after,
                root1,
                Ok::<(), LocalLedgerError>(()),
            ),
    }
}

/// After any sequence of creations and removals without error, the files
/// of the ledger's directory are those that were there before, with every
/// entry whose last step was a creation and without every entry whose last
/// step was a removal. So a listing, which names the files other than the
/// metadata document, names exactly those entries.
pub proof fn law_entries_follow_the_steps(
    name: Seq<char>,
    steps: Seq<EntryStep>,
    roots: Seq<RootView>,
)
    requires
        roots.len() == steps.len() + 1,
        forall|i: int|
            0 <= i < steps.len() ==> step_taken(name, #[trigger] steps[i], roots[i], roots[i + 1]),
    ensures
        roots.last().stems(name) == entries_after(roots[0].stems(name), steps),
    decreases steps.len(),
{
    if steps.len() > 0 {
        let n = steps.len() as int;
        let rest = steps.drop_last();
        let first = roots.drop_last();
        assert forall|i: int| 0 <= i < rest.len() implies step_taken(
            name,
            #[trigger] rest[i],
            first[i],
            first[i + 1],
        ) by {
            assert(step_taken(name, steps[i], roots[i], roots[i + 1]));
        }
        law_entries_follow_the_steps(name, rest, first);
        assert(first.last() == roots[n - 1]);
        assert(first[0] == roots[0]);
        assert(step_taken(name, steps[n - 1], roots[n - 1], roots[n]));
        let mid = roots[n - 1];
        let end = roots[n];
        match steps.last() {
            EntryStep::Create { entry } => {
                assert(end.stems(name) =~= mid.stems(name).insert(entry));
            },
            EntryStep::Remove { entry } => {
                assert(end.stems(name) =~= mid.stems(name).remove(entry));
            },
        }
    }
}

/// What a read after a create decrypts is the ciphertext that the create
/// stored: the created entry is in the cache undecrypted, and its file
/// holds the ciphertext and, in place of the payload, the default payload.
pub proof fn law_read_after_create(
    before: LedgerView,
    root0: RootView,
    entry: Seq<char>,
    sealed: Seq<u8>,
    blank: Seq<u8>,
    rev: Seq<char>,
    after: LedgerView,
    root1: RootView,
)
    requires
        created_with(before, root0, entry, sealed, blank, rev, after, root1),
    ensures
        !after.cache_hit(entry),
        root1.file(after.name, entry) matches Some(image) && image.encrypted
            && image.encrypted_data == sealed && image.data == blank && image.seq == 1,
{
    let image = resealed(unwritten(before.name, entry), sealed, blank, rev);
    lemma_put_then_found(before.cache, before.limit, entry, image);
}

/// What a read after an update decrypts is the ciphertext that the update
/// stored, where the entry's document was in its own place.
pub proof fn law_read_after_update(
    before: LedgerView,
    root0: RootView,
    entry: Seq<char>,
    plain: Seq<u8>,
    sealed: Seq<u8>,
    blank: Seq<u8>,
    rev: Seq<char>,
    after: LedgerView,
    root1: RootView,
)
    requires
        updated_with(before, root0, entry, plain, sealed, blank, rev, after, root1),
        after.name == before.name,
        update_base(before, root0, entry) matches Some(base) && base.label == before.name
            && base.uuid == entry,
    ensures
        !after.cache_hit(entry),
        root1.file(after.name, entry) matches Some(image) && image.encrypted
            && image.encrypted_data == sealed && image.data == blank,
{
}

impl<T: Payload> LocalLedger<T> {
    /// Opens the ledger `name` under the passphrase `ledger_password`,
    /// creating its metadata document when the tree has none that it can
    /// read.
    pub fn new(root: &mut StoreRoot, name: &str, ledger_password: String) -> (r: Result<
        Self,
        LocalLedgerError,
    >)
        ensures
            open_ledger_outcome(old(root)@, name@, ledger_password@, final(root)@, r),
    {
        let doc_cache = DocCache::new(CACHE_LIMIT);
        let maybe_meta_doc = try_load_meta_doc(root, name);
        let meta_doc = match maybe_meta_doc {
            Some(loaded_meta_doc) => {
                let correct_pw = match loaded_meta_doc.read_data() {
                    Ok(meta) => password_matches(ledger_password.as_str(), meta.pw_hash.as_str()),
                    Err(e) => {
                        return Err(e);
                    },
                };
                if !correct_pw {
                    return Err(LocalLedgerError::new("Incorrect password"));
                }
                loaded_meta_doc
            },
            None => {
                let pw_hash = match bcrypt_hash(ledger_password.as_str()) {
                    Ok(pw_hash) => pw_hash,
                    Err(why) => {
                        let e = LocalLedgerError::with_detail(
                            "LocalLedger creation failed: ",
                            why.as_str(),
                        );
                        assert(e.message@ == creation_failed_message(why@));
                        return Err(e);
                    },
                };
                let mut created_doc = create_meta_doc(name);
                let meta = LocalLedgerMetaData { pw_hash };
                let data = match meta.encode() {
                    Ok(data) => data,
                    Err(why) => {
                        return Err(LocalLedgerError::new(why.as_str()));
                    },
                };
                let ghost hash = meta.pw_hash@;
                created_doc.update(meta);
                let new_rev = generate_id();
                match created_doc.store_as(root, new_rev, data) {
                    Ok(()) => {},
                    Err(e) => {
                        return Err(e);
                    },
                }
                proof {
                    let image = first_meta_image(name@, new_rev@, hash);
                    assert(created_doc@.image(data@) == image);
                    assert(created_doc@.chain() =~= seq![new_rev@]);
                }
                let ghost rev = new_rev@;
                let ledger = LocalLedger {
                    name: name.to_owned(),
                    doc_cache,
                    meta_doc: created_doc,
                    pw: ledger_password,
                    payload: PhantomData,
                };
                assert(founded(old(root)@, name@, ledger_password@, root@, ledger@, hash, rev));
                return Ok(ledger);
            },
        };
        Ok(
            LocalLedger {
                name: name.to_owned(),
                doc_cache,
                meta_doc,
                pw: ledger_password,
                payload: PhantomData,
            },
        )
    }

    /// The master passphrase.
    pub(crate) fn passphrase(&self) -> (p: &str)
        ensures
            p@ == self@.pw,
    {
        self.pw.as_str()
    }

    /// The metadata document the ledger was opened with.
    pub(crate) fn meta_doc(&self) -> (d: &Document<LocalLedgerMetaData>)
        ensures
            d@.chain() == self@.meta_chain,
    {
        &self.meta_doc
    }

    /// The label of the ledger's directory.
    pub fn name(&self) -> (n: &str)
        ensures
            n@ == self@.name,
    {
        self.name.as_str()
    }

    fn entry_name_already_in_use(&self, root: &StoreRoot, entry_name: &str) -> (r: bool)
        ensures
            r == self@.in_use(root@, entry_name@),
    {
        if self.doc_cache.contains(entry_name) {
            return true;
        }
        root.file_exists(self.name.as_str(), entry_name)
    }

    /// Adds the entry `entry_name` with payload `data`, encrypted under
    /// the ledger's passphrase, and returns its uuid, which is its name.
    ///
    /// An empty name and a name already on disk or in the cache are
    /// refused. A payload without encoding and a failed encryption leave
    /// everything as it was.
    pub fn create(&mut self, root: &mut StoreRoot, data: T, entry_name: &str) -> (r: Result<
        String,
        LocalLedgerError,
    >)
        ensures
            create_outcome(old(self)@, old(root)@, entry_name@, final(self)@, final(root)@, r),
            r is Ok ==> payload_sealed(data, final(root)@.file(old(self)@.name, entry_name@)),
    {
        if entry_name.is_empty() {
            return Err(LocalLedgerError::new("Label cannot be empty"));
        }
        if self.entry_name_already_in_use(root, entry_name) {
            return Err(LocalLedgerError::new("Labels must be unique"));
        }
        let default = T::blank();
        let blank = match default.encode() {
            Ok(blank) => blank,
            Err(why) => {
                return Err(LocalLedgerError::new(why.as_str()));
            },
        };
        let plain = match data.encode() {
            Ok(plain) => plain,
            Err(why) => {
                return Err(
                    LocalLedgerError::with_detail("Failed to serialize document: ", why.as_str()),
                );
            },
        };
        proof {
            assert(encoding_gave(default, Ok::<Vec<u8>, String>(blank)));
            assert(encodes_to(default, blank@));
            assert(encoding_gave(data, Ok::<Vec<u8>, String>(plain)));
            assert(encodes_to(data, plain@));
        }
        let sealed = match encrypt_with(self.pw.as_str(), &plain) {
            Ok(sealed) => sealed,
            Err(e) => {
                return Err(e);
            },
        };
        let mut encrypted_doc = Document::<T>::new(self.name.as_str());
        encrypted_doc.append_uuid(entry_name);
        encrypted_doc.update(data);
        let new_rev = generate_id();
        let ghost image = resealed(unwritten(self@.name, entry_name@), sealed@, blank@, new_rev@);
        let cached = copy_bytes(&blank);
        let stored = encrypted_doc.store_sealed(root, sealed, blank, new_rev);
        assert(encrypted_doc@.image(cached@) == image);
        match stored {
            Ok(()) => {},
            Err(e) => {
                return Err(e);
            },
        }
        let doc_uuid = encrypted_doc.get_uuid();
        self.doc_cache.put(doc_uuid.clone(), encrypted_doc.to_image(cached));
        assert(created_with(
            old(self)@,
            old(root)@,
            entry_name@,
            encrypted_doc@.encrypted_data,
            cached@,
            new_rev@,
            self@,
            root@,
        ));
        Ok(doc_uuid)
    }

    /// Keeps the opened document `uuid` in the cache: `image` is its file
    /// image, `plain` what its ciphertext decrypted to, and `decoded` what
    /// decoding `plain` gave.
    pub fn keep_opened(
        &mut self,
        uuid: &str,
        image: DocImage,
        plain: Vec<u8>,
        decoded: &Result<T, String>,
    ) -> (r: Result<DocImage, LocalLedgerError>)
        ensures
            keep_outcome(old(self)@, uuid@, image@, plain@, *decoded, final(self)@, r),
    {
        match decoded {
            Ok(_) => {},
            Err(why) => {
                return Err(
                    LocalLedgerError::with_detail(
                        "Failed to parse decrypted data: ",
                        why.as_str(),
                    ),
                );
            },
        }
        let mut opened = image;
        opened.data = plain;
        opened.has_been_decrypted = true;
        self.doc_cache.put(uuid.to_owned(), opened.duplicate());
        Ok(opened)
    }

    /// The result of a read whose bytes decoded as `decoded`.
    pub fn payload_result(decoded: Result<T, String>) -> (r: Result<T, LocalLedgerError>)
        ensures
            payload_outcome(decoded, r),
    {
        match decoded {
            Ok(data) => Ok(data),
            Err(why) => Err(
                LocalLedgerError::with_detail("Failed to parse decrypted data: ", why.as_str()),
            ),
        }
    }

    /// The decrypted image of document `uuid`: from the cache when it is
    /// there decrypted, from its file otherwise, in which case the cache
    /// holds it afterwards.
    fn fetch(&mut self, root: &StoreRoot, uuid: &str) -> (r: Result<DocImage, LocalLedgerError>)
        ensures
            final(self)@.name == old(self)@.name,
            final(self)@.pw == old(self)@.pw,
            final(self)@.limit == old(self)@.limit,
            final(self)@.meta_chain == old(self)@.meta_chain,
            final(self)@.meta_hash == old(self)@.meta_hash,
            old(self)@.cache_hit(uuid@) ==> (r matches Ok(image) && image@ == value_of(
                old(self)@.cache,
                uuid@,
            ) && final(self)@.cache == touched(old(self)@.cache, uuid@)),
            !old(self)@.cache_hit(uuid@) ==> match root@.file(old(self)@.name, uuid@) {
                None => final(self)@.cache == touched(old(self)@.cache, uuid@) && fails_with(
                    r,
                    LocalLedgerErrorType::Default,
                    not_found_message(uuid@),
                ),
                Some(on_disk) => match r {
                    Ok(image) => image@ == opened_image(on_disk, image@.data) && final(self)@.cache == put_into(
                        touched(old(self)@.cache, uuid@),
                        old(self)@.limit,
                        uuid@,
                        image@,
                    ),
                    Err(e) => e.err_type == LocalLedgerErrorType::Default && final(self)@.cache
                        == touched(old(self)@.cache, uuid@),
                },
            },
    {
        match self.doc_cache.get(uuid) {
            Some(image) => {
                if image.has_been_decrypted {
                    return Ok(image);
                }
            },
            None => {},
        }
        let image = match root.read_file(self.name.as_str(), uuid) {
            Some(image) => image,
            None => {
                return Err(LocalLedgerError::with_detail("Document not found: ", uuid));
            },
        };
        let plain = match decrypt_with(self.pw.as_str(), &image.encrypted_data) {
            Ok(plain) => plain,
            Err(e) => {
                return Err(e);
            },
        };
        let decoded = T::decode(&plain);
        self.keep_opened(uuid, image, plain, &decoded)
    }

    /// The payload of document `uuid`.
    pub fn read(&mut self, root: &StoreRoot, uuid: String) -> (r: Result<T, LocalLedgerError>)
        ensures
            read_outcome(old(self)@, root@, uuid@, final(self)@, r),
    {
        let image = match self.fetch(root, uuid.as_str()) {
            Ok(image) => image,
            Err(e) => {
                return Err(e);
            },
        };
        let decoded = T::decode(&image.data);
        let r = Self::payload_result(decoded);
        proof {
            assert(decoding_gave(image@.data, decoded) && payload_outcome(decoded, r));
            assert(decoded_from(image@.data, r));
            if !old(self)@.cache_hit(uuid@) {
                let on_disk = root@.file(old(self)@.name, uuid@)->0;
                assert(read_from_file(old(self)@, uuid@, on_disk, image@.data, self@));
            }
        }
        r
    }

    /// The payload of the entry `entry_name`.
    pub fn read_by_entry_name(&mut self, root: &StoreRoot, entry_name: &str) -> (r: Result<
        T,
        LocalLedgerError,
    >)
        ensures
            read_outcome(old(self)@, root@, entry_name@, final(self)@, r),
    {
        self.read(root, entry_name.to_owned())
    }

    /// Deletes the entry `entry_name`: its file, and its document in the
    /// cache. An entry without a file is an error.
    pub fn remove(&mut self, root: &mut StoreRoot, entry_name: &str) -> (r: Result<
        (),
        LocalLedgerError,
    >)
        ensures
            remove_outcome(old(self)@, old(root)@, entry_name@, final(self)@, final(root)@, r),
    {
        match Document::<T>::remove_doc(root, self.name.as_str(), entry_name) {
            Ok(()) => {},
            Err(e) => {
                return Err(e);
            },
        }
        let _dropped = self.doc_cache.pop(entry_name);
        Ok(())
    }

    /// The path of the ledger's directory.
    pub fn get_ledger_dir(&self, root: &StoreRoot) -> (r: Result<String, LocalLedgerError>)
        ensures
            r matches Ok(path) && path@ == data_dir(root@.path, self@.name),
    {
        let mut path: String = root.path().to_owned();
        path.append("/");
        path.append(self.name.as_str());
        Ok(path)
    }

    /// Replaces the payload of the entry `entry_name` by `data`.
    ///
    /// The entry must be on disk or in the cache. Its document is taken
    /// from the cache when it is there decrypted and from its file
    /// otherwise, and is stored encrypted under a fresh revision.
    pub fn update(&mut self, root: &mut StoreRoot, entry_name: &str, data: T) -> (r: Result<
        (),
        LocalLedgerError,
    >)
        ensures
            update_outcome(old(self)@, old(root)@, entry_name@, final(self)@, final(root)@, r),
            r is Ok ==> (update_base(old(self)@, old(root)@, entry_name@) matches Some(base)
                && payload_sealed(data, final(root)@.file(base.label, base.uuid))),
    {
        if !self.entry_name_already_in_use(root, entry_name) {
            return Err(LocalLedgerError::new("Entry name not found"));
        }
        let base = match self.fetch(root, entry_name) {
            Ok(base) => base,
            Err(e) => {
                return Err(e);
            },
        };
        proof {
            if !old(self)@.cache_hit(entry_name@) {
                let on_disk = old(root)@.file(old(self)@.name, entry_name@)->0;
                assert(read_from_file(old(self)@, entry_name@, on_disk, base@.data, self@));
            }
        }
        let default = T::blank();
        let blank = match default.encode() {
            Ok(blank) => blank,
            Err(why) => {
                return Err(LocalLedgerError::new(why.as_str()));
            },
        };
        let plain = match data.encode() {
            Ok(plain) => plain,
            Err(why) => {
                return Err(
                    LocalLedgerError::with_detail("Failed to serialize document: ", why.as_str()),
                );
            },
        };
        proof {
            assert(encoding_gave(default, Ok::<Vec<u8>, String>(blank)));
            assert(encodes_to(default, blank@));
            assert(encoding_gave(data, Ok::<Vec<u8>, String>(plain)));
            assert(encodes_to(data, plain@));
        }
        let sealed = match encrypt_with(self.pw.as_str(), &plain) {
            Ok(sealed) => sealed,
            Err(e) => {
                return Err(e);
            },
        };
        let ghost start = base@;
        let ghost opened = base@.data;
        let mut doc = Document::<T>::from_image(base, data);
        let new_rev = match doc.draw_revision() {
            Ok(new_rev) => new_rev,
            Err(e) => {
                return Err(e);
            },
        };
        let cached = copy_bytes(&blank);
        let ghost image = resealed(start, sealed@, blank@, new_rev@);
        let stored = doc.store_sealed(root, sealed, blank, new_rev);
        match stored {
            Ok(()) => {},
            Err(e) => {
                return Err(e);
            },
        }
        assert(doc@.image(cached@) == image);
        let ghost held = self@.cache;
        self.doc_cache.put(entry_name.to_owned(), doc.to_image(cached));
        proof {
            lemma_put_then_found(held, old(self)@.limit, entry_name@, image);
            assert(updated_with(
                old(self)@,
                old(root)@,
                entry_name@,
                opened,
                image.encrypted_data,
                cached@,
                new_rev@,
                self@,
                root@,
            ));
        }
        Ok(())
    }

    /// The names of the ledger's entries: the uuids in its directory other
    /// than the metadata document's. A document that waits under a temp
    /// uuid after a merge that failed is listed under that uuid.
    pub fn list_entry_labels(&self, root: &StoreRoot) -> (r: Result<
        Vec<String>,
        LocalLedgerError,
    >)
        ensures
            root@.dirs.contains(self@.name) ==> (r matches Ok(labels) && texts(labels@)
                == entry_labels(root.listing(self@.name)) && texts(labels@).no_duplicates()),
            !root@.dirs.contains(self@.name) ==> fails_with(
                r,
                LocalLedgerErrorType::Default,
                no_directory_message(self@.name),
            ),
    {
        let uuids = match Document::<T>::get_all_uuids(root, self.name.as_str()) {
            Ok(uuids) => uuids,
            Err(e) => {
                return Err(e);
            },
        };
        let meta: String = META_DOC_UUID.to_owned();
        let mut labels: Vec<String> = Vec::new();
        let mut i: usize = 0;
        while i < uuids.len()
            invariant
                i <= uuids.len(),
                meta@ == meta_uuid(),
                texts(labels@) == entry_labels(texts(uuids@).subrange(0, i as int)),
            decreases uuids.len() - i,
        {
            let ghost before = labels@;
            let ghost next = texts(uuids@).subrange(0, i + 1);
            assert(next.drop_last() =~= texts(uuids@).subrange(0, i as int));
            if uuids[i] != meta {
                labels.push(uuids[i].clone());
                assert(texts(labels@) =~= texts(before).push(uuids@[i as int]@));
            }
            i = i + 1;
        }
        assert(texts(uuids@).subrange(0, uuids@.len() as int) =~= texts(uuids@));
        proof {
            law_entries_are_listed_once(texts(uuids@));
        }
        Ok(labels)
    }

    /// The names of the entries that have a conflict sibling. A ledger
    /// without a conflict directory has none.
    pub fn list_entries_with_conflicts(&self, root: &StoreRoot) -> (r: Result<
        Vec<String>,
        LocalLedgerError,
    >)
        ensures
            r matches Ok(labels) && texts(labels@) == (if root@.dirs.contains(
                conflicts_dir(self@.name),
            ) {
                conflict_labels(root.listing(conflicts_dir(self@.name)))
            } else {
                Seq::empty()
            }),
    {
        let dir = with_suffix(self.name.as_str(), "_conflicts");
        let mut labels: Vec<String> = Vec::new();
        let stems = match root.list_stems(dir.as_str()) {
            Some(stems) => stems,
            None => {
                assert(texts(labels@) =~= Seq::empty());
                return Ok(labels);
            },
        };
        let mut i: usize = 0;
        while i < stems.len()
            invariant
                i <= stems.len(),
                texts(labels@) == conflict_labels(texts(stems@).subrange(0, i as int)),
            decreases stems.len() - i,
        {
            let ghost before = labels@;
            let ghost next = texts(stems@).subrange(0, i + 1);
            assert(next.drop_last() =~= texts(stems@).subrange(0, i as int));
            match strip_suffix(stems[i].as_str(), "__conflict") {
                Some(label) => {
                    labels.push(label);
                    assert(texts(labels@) =~= texts(before).push(
                        without_tail(stems@[i as int]@, conflict_suffix().len()),
                    ));
                },
                None => {},
            }
            i = i + 1;
        }
        assert(texts(stems@).subrange(0, stems@.len() as int) =~= texts(stems@));
        Ok(labels)
    }

    /// The images of the documents in the ledger's directory, in listing
    /// order: what a dump of the ledger sends, document by document.
    pub fn doc_dump(&self, root: &StoreRoot) -> (r: Result<Vec<DocImage>, LocalLedgerError>)
        ensures
            root@.dirs.contains(self@.name) ==> (r matches Ok(images) && images@.len()
                == root.listing(self@.name).len() && forall|i: int|
                0 <= i < images@.len() ==> root@.file(
                    self@.name,
                    #[trigger] root.listing(self@.name)[i],
                ) == Some(images@[i]@)),
            !root@.dirs.contains(self@.name) ==> fails_with(
                r,
                LocalLedgerErrorType::Default,
                no_directory_message(self@.name),
            ),
    {
        let uuids = match Document::<T>::get_all_uuids(root, self.name.as_str()) {
            Ok(uuids) => uuids,
            Err(e) => {
                return Err(e);
            },
        };
        let mut images: Vec<DocImage> = Vec::new();
        let mut i: usize = 0;
        while i < uuids.len()
            invariant
                i <= uuids.len(),
                texts(uuids@) == root.listing(self@.name),
                images@.len() == i,
                forall|j: int|
                    0 <= j < i ==> root@.file(self@.name, #[trigger] root.listing(self@.name)[j])
                        == Some(images@[j]@),
            decreases uuids.len() - i,
        {
            proof {
                root.law_listing(self@.name);
                assert(texts(uuids@)[i as int] == uuids@[i as int]@);
                assert(root.listing(self@.name).to_set().contains(uuids@[i as int]@));
            }
            match root.read_file(self.name.as_str(), uuids[i].as_str()) {
                Some(image) => {
                    images.push(image);
                },
                None => {
                    assert(false);
                },
            }
            i = i + 1;
        }
        Ok(images)
    }

    /// The conflict sibling of the entry `entry_name`, decrypted.
    pub fn get_conf(&mut self, root: &StoreRoot, entry_name: &str) -> (r: Result<
        Document<T>,
        LocalLedgerError,
    >)
        ensures
            final(self)@ == old(self)@,
            conflict_outcome(old(self)@, root@, entry_name@, r),
    {
        let dir = with_suffix(self.name.as_str(), "_conflicts");
        let uuid = with_suffix(entry_name, "__conflict");
        let image = match root.read_file(dir.as_str(), uuid.as_str()) {
            Some(image) => image,
            None => {
                return Err(LocalLedgerError::with_detail("Document not found: ", uuid.as_str()));
            },
        };
        let plain = match decrypt_with(self.pw.as_str(), &image.encrypted_data) {
            Ok(plain) => plain,
            Err(e) => {
                let r = Err(e);
                assert(sibling_opened::<T>(image@, r));
                return r;
            },
        };
        let decoded = T::decode(&plain);
        let ghost on_disk = image@;
        let r = Document::unseal_image(image, decoded);
        assert(decoding_gave(plain@, decoded) && unseal_outcome(on_disk, decoded, r));
        assert(unsealed_by_decoding(on_disk, plain@, r));
        assert(sibling_opened(on_disk, r));
        r
    }

    /// Settles the conflict of the entry `entry_name`: with
    /// `keep_original` the conflict sibling is discarded; without it the
    /// sibling takes the entry's place.
    pub fn resolve(&mut self, root: &mut StoreRoot, entry_name: &str, keep_original: bool) -> (r:
        Result<(), LocalLedgerError>)
        ensures
            resolve_outcome(
                old(self)@,
                old(root)@,
                entry_name@,
                keep_original,
                final(self)@,
                final(root)@,
                r,
            ),
    {
        let local = match self.fetch(root, entry_name) {
            Ok(local) => local,
            Err(e) => {
                return Err(e);
            },
        };
        proof {
            if !old(self)@.cache_hit(entry_name@) {
                let on_disk = old(root)@.file(old(self)@.name, entry_name@)->0;
                assert(read_from_file(
                    old(self)@,
                    entry_name@,
                    on_disk,
                    local@.data,
                    old(self)@.with_cache(self@.cache),
                ));
            }
            assert(looked_up(old(self)@, old(root)@, entry_name@, self@.cache));
        }
        let mut sibling: Document<T> = match self.get_conf(root, entry_name) {
            Ok(sibling) => sibling,
            Err(e) => {
                return Err(e);
            },
        };
        let dir = with_suffix(self.name.as_str(), "_conflicts");
        let uuid = with_suffix(entry_name, "__conflict");
        let ghost place = (conflicts_dir(self@.name), conflict_of(entry_name@));
        let ghost on_disk = old(root)@.files[place];
        if keep_original {
            let _gone = root.remove_file(dir.as_str(), uuid.as_str());
            return Ok(());
        }
        let blank = match T::blank().encode() {
            Ok(blank) => blank,
            Err(why) => {
                return Err(LocalLedgerError::new(why.as_str()));
            },
        };
        let plain = match sibling.data_in_memory().encode() {
            Ok(plain) => plain,
            Err(why) => {
                return Err(
                    LocalLedgerError::with_detail("Failed to serialize document: ", why.as_str()),
                );
            },
        };
        let sealed = match encrypt_with(self.pw.as_str(), &plain) {
            Ok(sealed) => sealed,
            Err(e) => {
                return Err(e);
            },
        };
        if sibling.seq() >= i64::MAX {
            return Err(LocalLedgerError::new("Document sequence counter is exhausted"));
        }
        let new_rev = match sibling.draw_revision() {
            Ok(new_rev) => new_rev,
            Err(e) => {
                return Err(e);
            },
        };
        sibling.append_uuid(entry_name);
        sibling.relabel(self.name.as_str());
        let ghost held = self@.cache;
        match self.remove(root, entry_name) {
            Ok(()) => {},
            Err(e) => {
                assert(root@.files =~= old(root)@.files);
                return Err(e);
            },
        }
        proof {
            crate::cache::lemma_pop_then_absent(held, entry_name@);
        }
        let _gone = root.remove_file(dir.as_str(), uuid.as_str());
        let ghost moved = ImageView { label: self@.name, uuid: entry_name@, ..on_disk };
        let ghost image = resealed(moved, sealed@, blank@, new_rev@);
        let ghost mid = root@;
        let ghost cipher = sealed@;
        let ghost filler = blank@;
        let stored = sibling.store_sealed(root, sealed, blank, new_rev);
        proof {
            assert(!mid.files.contains_key((self@.name, entry_name@)));
        }
        match stored {
            Ok(()) => {},
            Err(e) => {
                return Err(e);
            },
        }
        proof {
            assert(sibling@.image(filler) == image);
            assert(mid.dirs.insert(self@.name) =~= mid.dirs);
            assert(promoted_with(
                old(self)@,
                old(root)@,
                entry_name@,
                on_disk,
                cipher,
                filler,
                new_rev@,
                root@,
            ));
        }
        Ok(())
    }
}

} // verus!

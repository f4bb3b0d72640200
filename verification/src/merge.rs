//! The merge protocol: taking in a peer's documents one by one, setting
//! aside what cannot be written yet, quarantining what conflicts, and
//! undoing everything when the peer's metadata proves incompatible.
//!
//! Only the metadata document is treated apart. The association document
//! that stores of an early format hold is merged like any other document.
//! Whatever label an incoming document carries, it is merged into the
//! ledger's own directories.

use vstd::prelude::*;
use crate::cipher::decrypt_with;
use crate::cipher::encrypt_with;
use crate::document::cleartext_store_outcome;
use crate::document::conflict_message;
use crate::document::draw_outcome;
use crate::document::encoding_gave;
use crate::document::exhausted_message;
use crate::document::sealed_message;
use crate::json::json_object;
use crate::json::json_text_field;
use crate::ledger::hash_field;
use crate::ledger::meta_fields;
use crate::ledger::missing_hash_message;
use crate::document::Document;
use crate::document::Payload;
use crate::error::fails_with;
use crate::error::LocalLedgerError;
use crate::error::LocalLedgerErrorType;
use crate::ident::is_id;
use crate::ledger::conflict_of;
use crate::ledger::conflicts_dir;
use crate::ledger::meta_uuid;
use crate::ledger::resealed;
use crate::ledger::temp_of;
use crate::ledger::temp_suffix;
use crate::ledger::LedgerView;
use crate::ledger::LocalLedger;
use crate::ledger::LocalLedgerMetaData;
use crate::ledger::META_DOC_UUID;
use crate::names::ends_with;
use crate::names::with_suffix;
use crate::revision::diverges;
use crate::revision::lemma_texts_push;
use crate::revision::texts;
use crate::root::DocImage;
use crate::root::FileKey;
use crate::root::ImageView;
use crate::root::RootView;
use crate::root::StoreRoot;

verus! {

/// What a merge remembers between documents.
pub struct MergeState {
    /// Whether the peer's metadata document was stored.
    pub meta_stored: bool,
    /// The uuids of the documents that wait under a temp uuid.
    pub temp_uuids: Vec<String>,
    /// The uuids of the documents that were quarantined.
    pub conflict_uuids: Vec<String>,
}

/// The mathematical content of a `MergeState`.
pub ghost struct MergeView {
    pub meta_stored: bool,
    pub temps: Seq<Seq<char>>,
    pub conflicts: Seq<Seq<char>>,
}

impl View for MergeState {
    type V = MergeView;

    open spec fn view(&self) -> MergeView {
        MergeView {
            meta_stored: self.meta_stored,
            temps: texts(self.temp_uuids@),
            conflicts: texts(self.conflict_uuids@),
        }
    }
}

impl MergeView {
    /// The state at the start of a merge.
    pub open spec fn start() -> MergeView {
        MergeView { meta_stored: false, temps: Seq::empty(), conflicts: Seq::empty() }
    }

    /// The places of the files that the merge wrote so far without
    /// touching a primary document: the temp files and the conflict
    /// siblings.
    pub open spec fn places(self, name: Seq<char>) -> Set<FileKey> {
        temp_places(name, self.temps).union(conflict_places(name, self.conflicts))
    }
}

/// The places of the temp files of the documents `uuids`.
pub open spec fn temp_places(name: Seq<char>, uuids: Seq<Seq<char>>) -> Set<FileKey> {
    Set::new(
        |key: FileKey|
            exists|i: int| 0 <= i < uuids.len() && key == (name, temp_of(#[trigger] uuids[i])),
    )
}

/// The places of the conflict siblings of the documents `uuids`.
pub open spec fn conflict_places(name: Seq<char>, uuids: Seq<Seq<char>>) -> Set<FileKey> {
    Set::new(
        |key: FileKey|
            exists|i: int|
                0 <= i < uuids.len() && key == (
                    conflicts_dir(name),
                    conflict_of(#[trigger] uuids[i]),
                ),
    )
}

/// One more document adds its temp place to the temp places.
pub proof fn lemma_temp_places_push(name: Seq<char>, uuids: Seq<Seq<char>>, uuid: Seq<char>)
    ensures
        temp_places(name, uuids.push(uuid)) == temp_places(name, uuids).insert(
            (name, temp_of(uuid)),
        ),
{
    let more = uuids.push(uuid);
    assert forall|key: FileKey|
        temp_places(name, more).contains(key) <==> temp_places(name, uuids).insert(
            (name, temp_of(uuid)),
        ).contains(key) by {
        if temp_places(name, uuids).contains(key) {
            let i = choose|i: int|
                0 <= i < uuids.len() && key == (name, temp_of(#[trigger] uuids[i]));
            assert(more[i] == uuids[i]);
        }
        if key == (name, temp_of(uuid)) {
            assert(more[uuids.len() as int] == uuid);
        }
        if temp_places(name, more).contains(key) {
            let i = choose|i: int| 0 <= i < more.len() && key == (name, temp_of(#[trigger] more[i]));
            if i < uuids.len() {
                assert(more[i] == uuids[i]);
            }
        }
    }
    assert(temp_places(name, more) =~= temp_places(name, uuids).insert((name, temp_of(uuid))));
}

/// One more document adds its sibling's place to the conflict places.
pub proof fn lemma_conflict_places_push(name: Seq<char>, uuids: Seq<Seq<char>>, uuid: Seq<char>)
    ensures
        conflict_places(name, uuids.push(uuid)) == conflict_places(name, uuids).insert(
            (conflicts_dir(name), conflict_of(uuid)),
        ),
{
    let more = uuids.push(uuid);
    let place = (conflicts_dir(name), conflict_of(uuid));
    assert forall|key: FileKey|
        conflict_places(name, more).contains(key) <==> conflict_places(name, uuids).insert(
            place,
        ).contains(key) by {
        if conflict_places(name, uuids).contains(key) {
            let i = choose|i: int|
                0 <= i < uuids.len() && key == (
                    conflicts_dir(name),
                    conflict_of(#[trigger] uuids[i]),
                );
            assert(more[i] == uuids[i]);
        }
        if key == place {
            assert(more[uuids.len() as int] == uuid);
        }
        if conflict_places(name, more).contains(key) {
            let i = choose|i: int|
                0 <= i < more.len() && key == (
                    conflicts_dir(name),
                    conflict_of(#[trigger] more[i]),
                );
            if i < uuids.len() {
                assert(more[i] == uuids[i]);
            }
        }
    }
    assert(conflict_places(name, more) =~= conflict_places(name, uuids).insert(place));
}

pub open spec fn meta_conflict_message() -> Seq<char> {
    "META_DOC conflict found during merge."@
}

/// Whether the incoming document conflicts with the local one of its uuid.
pub open spec fn clashes(root: RootView, name: Seq<char>, doc: ImageView) -> bool {
    root.files.contains_key((name, doc.uuid)) && diverges(
        root.files[(name, doc.uuid)].chain(),
        doc.chain(),
    )
}

/// The conflict sibling that holds the incoming document.
pub open spec fn quarantined(name: Seq<char>, doc: ImageView) -> ImageView {
    ImageView { label: conflicts_dir(name), uuid: conflict_of(doc.uuid), ..doc }
}

/// The temp document that holds the incoming document.
pub open spec fn staged(name: Seq<char>, doc: ImageView) -> ImageView {
    ImageView { label: name, uuid: temp_of(doc.uuid), ..doc }
}

/// The place where an incoming document goes while the peer's metadata is
/// not confirmed: the conflict directory when it conflicts, a temp uuid
/// otherwise.
pub open spec fn aside_place(root: RootView, name: Seq<char>, doc: ImageView) -> FileKey {
    if clashes(root, name, doc) {
        (conflicts_dir(name), conflict_of(doc.uuid))
    } else {
        (name, temp_of(doc.uuid))
    }
}

/// The tree after an incoming document is set aside.
pub open spec fn set_aside(root: RootView, name: Seq<char>, doc: ImageView) -> RootView {
    if clashes(root, name, doc) {
        root.written(conflicts_dir(name), conflict_of(doc.uuid), quarantined(name, doc))
    } else {
        root.written(name, temp_of(doc.uuid), staged(name, doc))
    }
}

/// The state after an incoming document is set aside.
pub open spec fn noted(state: MergeView, root: RootView, name: Seq<char>, doc: ImageView) -> MergeView {
    if clashes(root, name, doc) {
        MergeView { conflicts: state.conflicts.push(doc.uuid), ..state }
    } else {
        MergeView { temps: state.temps.push(doc.uuid), ..state }
    }
}

/// A file was written at `label`/`stem`; every other file is as it was.
pub open spec fn wrote_at(
    root0: RootView,
    label: Seq<char>,
    stem: Seq<char>,
    root1: RootView,
) -> bool {
    exists|image: ImageView| root1 == #[trigger] root0.written(label, stem, image)
}

/// The incoming document `doc` was decrypted and stored as the primary
/// document of its uuid, with ciphertext `sealed`, default payload `blank`
/// and revision `rev`.
pub open spec fn taken_in(
    root0: RootView,
    name: Seq<char>,
    doc: ImageView,
    sealed: Seq<u8>,
    blank: Seq<u8>,
    rev: Seq<char>,
    root1: RootView,
) -> bool {
    &&& is_id(rev)
    &&& !doc.chain().contains(rev)
    &&& root1 == root0.written(
        name,
        doc.uuid,
        resealed(ImageView { label: name, ..doc }, sealed, blank, rev),
    )
}

/// A failure that left the tree as it was, but for the ledger's directory,
/// which a refused store creates.
pub open spec fn refused(
    root0: RootView,
    name: Seq<char>,
    root1: RootView,
    r: Result<(), LocalLedgerError>,
) -> bool {
    match r {
        Ok(_) => false,
        Err(e) => {
            ||| e.err_type == LocalLedgerErrorType::Default && root1 == root0
            ||| e.err_type == LocalLedgerErrorType::Confict && root1 == root0.with_dir(name)
        },
    }
}

/// The image that the store protocol writes for the peer's metadata
/// document `doc` when ledger `name` takes it in: a cleartext record of
/// the ledger, its chain advanced to `rev`, holding the passphrase hash
/// `hash`.
pub open spec fn meta_image(
    name: Seq<char>,
    doc: ImageView,
    hash: Seq<char>,
    rev: Seq<char>,
) -> ImageView {
    ImageView {
        label: name,
        uuid: doc.uuid,
        rev,
        data: json_object(meta_fields(hash)),
        seq: doc.seq + 1,
        encrypted_data: Seq::empty(),
        encrypted: false,
        has_been_decrypted: doc.has_been_decrypted,
        rev_history: if doc.seq + 1 > 1 {
            doc.rev_history.push(doc.rev)
        } else {
            doc.rev_history
        },
    }
}

/// What storing the peer's metadata document `doc`, which holds the
/// passphrase hash `hash`, does to the tree when drawing the revision gave
/// `drawn`, and what it returns.
///
/// A revision that is not new is refused, and nothing changes. Otherwise
/// the store protocol runs: it refuses a counter that is exhausted and a
/// chain that the file in place does not allow, and else writes the
/// document, relabelled, under the new revision.
pub open spec fn meta_stored_with(
    name: Seq<char>,
    root0: RootView,
    doc: ImageView,
    hash: Seq<char>,
    drawn: Result<String, LocalLedgerError>,
    root1: RootView,
    r: Result<(), LocalLedgerError>,
) -> bool {
    match drawn {
        Err(e) => root1 == root0 && r == Err::<(), LocalLedgerError>(e),
        Ok(rev) => {
            let image = meta_image(name, doc, hash, rev@);
            if doc.seq >= i64::MAX {
                root1 == root0 && fails_with(r, LocalLedgerErrorType::Default, exhausted_message())
            } else if root0.files.contains_key((name, doc.uuid)) && diverges(
                root0.files[(name, doc.uuid)].chain(),
                image.chain(),
            ) {
                root1 == root0.with_dir(name) && fails_with(
                    r,
                    LocalLedgerErrorType::Confict,
                    conflict_message(),
                )
            } else {
                root1 == root0.written(name, doc.uuid, image) && r is Ok
            }
        },
    }
}

/// What taking in the peer's metadata document `doc` does to the tree, and
/// what it returns.
///
/// A document without a passphrase hash and one that is encrypted are
/// refused, and nothing changes. Any other is stored with a revision drawn
/// for it.
pub open spec fn meta_taken(
    name: Seq<char>,
    root0: RootView,
    doc: ImageView,
    root1: RootView,
    r: Result<(), LocalLedgerError>,
) -> bool {
    match json_text_field(doc.data, hash_field()) {
        None => root1 == root0 && fails_with(
            r,
            LocalLedgerErrorType::Default,
            missing_hash_message(),
        ),
        Some(hash) => if doc.encrypted && !doc.has_been_decrypted {
            root1 == root0 && fails_with(r, LocalLedgerErrorType::Default, sealed_message())
        } else {
            exists|drawn: Result<String, LocalLedgerError>|
                draw_outcome(doc.chain(), drawn) && #[trigger] meta_stored_with(
                    name,
                    root0,
                    doc,
                    hash,
                    drawn,
                    root1,
                    r,
                )
        },
    }
}

/// What taking in one incoming document does to the merge state and the
/// tree, and what it returns.
///
/// The metadata document either conflicts with the ledger's, in which
/// case every file the merge set aside is deleted and the merge fails, or
/// it is stored. Any other document is quarantined when it conflicts with
/// the local one, waits under a temp uuid while the metadata is not
/// stored, and is otherwise decrypted and stored under the local key.
pub open spec fn merge_doc_outcome(
    ledger: LedgerView,
    state0: MergeView,
    root0: RootView,
    doc: ImageView,
    state1: MergeView,
    root1: RootView,
    r: Result<(), LocalLedgerError>,
) -> bool {
    let name = ledger.name;
    if doc.uuid == meta_uuid() {
        if diverges(ledger.meta_chain, doc.chain()) {
            &&& fails_with(r, LocalLedgerErrorType::MetaDocConflict, meta_conflict_message())
            &&& state1 == state0
            &&& root1.path == root0.path
            &&& root1.dirs == root0.dirs
            &&& root1.files == root0.files.remove_keys(state0.places(name))
        } else {
            &&& meta_taken(name, root0, doc, root1, r)
            &&& match r {
                Ok(_) => state1 == (MergeView { meta_stored: true, ..state0 }) && wrote_at(
                    root0,
                    name,
                    meta_uuid(),
                    root1,
                ),
                Err(_) => state1 == state0 && refused(root0, name, root1, r),
            }
        }
    } else if clashes(root0, name, doc) || !state0.meta_stored {
        &&& r is Ok
        &&& root1 == set_aside(root0, name, doc)
        &&& state1 == noted(state0, root0, name, doc)
    } else {
        &&& state1 == state0
        &&& match r {
            Ok(_) => exists|sealed: Seq<u8>, blank: Seq<u8>, rev: Seq<char>|
                taken_in(root0, name, doc, sealed, blank, rev, root1),
            Err(_) => refused(root0, name, root1, r),
        }
    }
}

/// The tree after the documents `docs`, none of them the metadata
/// document, were set aside one after the other.
pub open spec fn all_set_aside(root: RootView, name: Seq<char>, docs: Seq<ImageView>) -> RootView
    decreases docs.len(),
{
    if docs.len() == 0 {
        root
    } else {
        set_aside(all_set_aside(root, name, docs.drop_last()), name, docs.last())
    }
}

/// The merge state after the documents `docs` were set aside one after the
/// other, starting from the tree `root`.
pub open spec fn all_noted(root: RootView, name: Seq<char>, docs: Seq<ImageView>) -> MergeView
    decreases docs.len(),
{
    if docs.len() == 0 {
        MergeView::start()
    } else {
        noted(
            all_noted(root, name, docs.drop_last()),
            all_set_aside(root, name, docs.drop_last()),
            name,
            docs.last(),
        )
    }
}

/// None of the first `n` documents is the metadata document.
pub open spec fn no_meta_before(docs: Seq<ImageView>, n: int) -> bool {
    forall|j: int| 0 <= j < n && j < docs.len() ==> (#[trigger] docs[j]).uuid != meta_uuid()
}

/// The merge touched nothing outside the ledger's directory and its
/// conflict directory, and removed no directory.
pub open spec fn confined(root0: RootView, root1: RootView, name: Seq<char>) -> bool {
    &&& root1.path == root0.path
    &&& root0.dirs.subset_of(root1.dirs)
    &&& root1.dirs.subset_of(root0.dirs.insert(name).insert(conflicts_dir(name)))
    &&& forall|key: FileKey|
        key.0 != name && key.0 != conflicts_dir(name) ==> #[trigger] root1.file(key.0, key.1)
            == root0.file(key.0, key.1)
}

/// Setting documents aside and then deleting what was set aside leaves
/// every other file as it was, and nothing in the places of the files set
/// aside.
pub proof fn law_set_aside_undone(root: RootView, name: Seq<char>, docs: Seq<ImageView>)
    ensures
        all_set_aside(root, name, docs).files.remove_keys(all_noted(root, name, docs).places(name))
            == root.files.remove_keys(all_noted(root, name, docs).places(name)),
        all_set_aside(root, name, docs).path == root.path,
        root.dirs.subset_of(all_set_aside(root, name, docs).dirs),
        all_set_aside(root, name, docs).dirs.subset_of(
            root.dirs.insert(name).insert(conflicts_dir(name)),
        ),
        all_noted(root, name, docs).meta_stored == false,
    decreases docs.len(),
{
    if docs.len() > 0 {
        let rest = docs.drop_last();
        let doc = docs.last();
        law_set_aside_undone(root, name, rest);
        let before = all_set_aside(root, name, rest);
        let state = all_noted(root, name, rest);
        let after = all_set_aside(root, name, docs);
        let places = all_noted(root, name, docs).places(name);
        let place = aside_place(before, name, doc);
        if clashes(before, name, doc) {
            lemma_conflict_places_push(name, state.conflicts, doc.uuid);
        } else {
            lemma_temp_places_push(name, state.temps, doc.uuid);
        }
        assert(places =~= state.places(name).insert(place));
        assert(after.files.remove_keys(places) =~= before.files.remove_keys(
            state.places(name),
        ).remove(place));
        assert(root.files.remove_keys(places) =~= root.files.remove_keys(
            state.places(name),
        ).remove(place));
    } else {
        assert(all_noted(root, name, docs).places(name) =~= Set::empty());
    }
}

/// Where every incoming document conflicts with the local one, setting
/// them aside leaves the ledger's own directory untouched, makes none of
/// them wait under a temp uuid, and puts each into the conflict directory.
pub proof fn law_all_quarantined(root: RootView, name: Seq<char>, docs: Seq<ImageView>)
    requires
        forall|j: int| 0 <= j < docs.len() ==> clashes(root, name, #[trigger] docs[j]),
    ensures
        all_noted(root, name, docs).temps.len() == 0,
        forall|stem: Seq<char>|
            #[trigger] all_set_aside(root, name, docs).file(name, stem) == root.file(name, stem),
        forall|j: int|
            0 <= j < docs.len() ==> all_set_aside(root, name, docs).files.contains_key(
                (conflicts_dir(name), conflict_of((#[trigger] docs[j]).uuid)),
            ),
    decreases docs.len(),
{
    crate::names::law_suffix_round_trip(name, crate::ledger::conflicts_dir_suffix());
    assert(conflicts_dir(name) != name) by {
        reveal_strlit("_conflicts");
        assert(conflicts_dir(name).len() == name.len() + 10);
    }
    if docs.len() > 0 {
        let rest = docs.drop_last();
        let doc = docs.last();
        assert forall|j: int| 0 <= j < rest.len() implies clashes(root, name, #[trigger] rest[j]) by {
            assert(rest[j] == docs[j]);
        }
        law_all_quarantined(root, name, rest);
        let before = all_set_aside(root, name, rest);
        assert(clashes(root, name, docs[docs.len() - 1]));
        assert(before.file(name, doc.uuid) == root.file(name, doc.uuid));
        assert(clashes(before, name, doc));
        let after = all_set_aside(root, name, docs);
        assert forall|stem: Seq<char>| #[trigger]
            after.file(name, stem) == root.file(name, stem) by {
            assert(before.file(name, stem) == root.file(name, stem));
        }
        assert forall|j: int| 0 <= j < docs.len() implies after.files.contains_key(
            (conflicts_dir(name), conflict_of((#[trigger] docs[j]).uuid)),
        ) by {
            if j < rest.len() {
                assert(rest[j] == docs[j]);
            }
        }
    }
}

/// The images of a list of incoming documents.
pub open spec fn images(docs: Seq<DocImage>) -> Seq<ImageView> {
    Seq::new(docs.len(), |i: int| docs[i]@)
}

/// Document `k` is the first metadata document of `docs`.
pub open spec fn first_meta_at(docs: Seq<ImageView>, k: int) -> bool {
    0 <= k < docs.len() && docs[k].uuid == meta_uuid() && no_meta_before(docs, k)
}

/// What merging the documents `docs` does to the tree, and what it
/// returns.
///
/// Nothing outside the ledger's two directories changes. Where the first
/// metadata document conflicts with the ledger's, the merge fails with a
/// metadata conflict and every file it set aside is deleted. Where there
/// is no metadata document and no document waits under a temp uuid, the
/// merge succeeds and the tree is the one with every document set aside.
/// Where the documents are the local ones and the merge succeeds, the tree
/// has the files it had, and no other. A metadata conflict is reported
/// only where a metadata document conflicts.
pub open spec fn merge_outcome(
    ledger: LedgerView,
    root0: RootView,
    docs: Seq<ImageView>,
    root1: RootView,
    r: Result<(), LocalLedgerError>,
) -> bool {
    let name = ledger.name;
    &&& merge_course(ledger, root0, docs, root1, r)
    &&& confined(root0, root1, name)
    &&& forall|k: int| #[trigger]
        first_meta_at(docs, k) && diverges(ledger.meta_chain, docs[k].chain()) ==> fails_with(
            r,
            LocalLedgerErrorType::MetaDocConflict,
            meta_conflict_message(),
        ) && root1.files == root0.files.remove_keys(
            all_noted(root0, name, docs.take(k)).places(name),
        )
    &&& (no_meta_before(docs, docs.len() as int) && all_noted(root0, name, docs).temps.len() == 0)
        ==> r is Ok && root1 == all_set_aside(root0, name, docs)
    &&& (matches_local(ledger, root0, docs) && r is Ok) ==> root1.files.dom()
        == root0.files.dom()
    &&& crate::error::fails_as(r, LocalLedgerErrorType::MetaDocConflict) ==> exists|k: int|
        0 <= k < docs.len() && (#[trigger] docs[k]).uuid == meta_uuid() && diverges(
            ledger.meta_chain,
            docs[k].chain(),
        )
}

/// What promoting the document `uuid` that waits under its temp uuid does
/// to the tree, and what it returns: a temp file that is not there is an
/// error; otherwise the document is taken in under its own uuid and the
/// temp file deleted, or the tree stays as a refused store leaves it.
pub open spec fn promote_outcome(
    ledger: LedgerView,
    root0: RootView,
    uuid: Seq<char>,
    root1: RootView,
    r: Result<(), LocalLedgerError>,
) -> bool {
    let name = ledger.name;
    match root0.file(name, temp_of(uuid)) {
        None => root1 == root0 && fails_with(
            r,
            LocalLedgerErrorType::Default,
            crate::document::not_found_message(temp_of(uuid)),
        ),
        Some(image) => match r {
            Ok(_) => exists|sealed: Seq<u8>, blank: Seq<u8>, rev: Seq<char>|
                promoted_as(root0, name, uuid, image, sealed, blank, rev, root1),
            Err(_) => refused(root0, name, root1, r),
        },
    }
}

/// The document `uuid`, which waited as `image` under its temp uuid, was
/// taken in with ciphertext `sealed`, default payload `blank` and revision
/// `rev`, and its temp file deleted.
pub open spec fn promoted_as(
    root0: RootView,
    name: Seq<char>,
    uuid: Seq<char>,
    image: ImageView,
    sealed: Seq<u8>,
    blank: Seq<u8>,
    rev: Seq<char>,
    root1: RootView,
) -> bool {
    &&& is_id(rev)
    &&& !image.chain().contains(rev)
    &&& root1 == root0.written(
        name,
        uuid,
        resealed(ImageView { label: name, uuid, ..image }, sealed, blank, rev),
    ).without(name, temp_of(uuid))
}

/// The tree `root` is one that taking in the first `n` of the documents
/// `docs` can lead to from the tree `root0`, with the merge state `state`,
/// when none of them fails.
pub open spec fn taken(
    ledger: LedgerView,
    root0: RootView,
    docs: Seq<ImageView>,
    n: int,
    state: MergeView,
    root: RootView,
) -> bool
    decreases n,
{
    if n <= 0 {
        state == MergeView::start() && root == root0
    } else {
        exists|before: MergeView, mid: RootView, done: Result<(), LocalLedgerError>|
            taken(ledger, root0, docs, n - 1, before, mid) && done is Ok
                && #[trigger] merge_doc_outcome(
                ledger,
                before,
                mid,
                docs[n - 1],
                state,
                root,
                done,
            )
    }
}

/// The tree `root` is one that promoting the first `n` of the waiting
/// documents `temps` can lead to from the tree `root0` when none of them
/// fails.
pub open spec fn ended(
    ledger: LedgerView,
    root0: RootView,
    temps: Seq<Seq<char>>,
    n: int,
    root: RootView,
) -> bool
    decreases n,
{
    if n <= 0 {
        root == root0
    } else {
        exists|mid: RootView, done: Result<(), LocalLedgerError>|
            ended(ledger, root0, temps, n - 1, mid) && done is Ok && #[trigger] promote_outcome(
                ledger,
                mid,
                temps[n - 1],
                root,
                done,
            )
    }
}

/// What ending a merge does to the tree, and what it returns: the waiting
/// documents are promoted in order, and the first that fails ends it.
pub open spec fn end_outcome(
    ledger: LedgerView,
    root0: RootView,
    temps: Seq<Seq<char>>,
    root1: RootView,
    r: Result<(), LocalLedgerError>,
) -> bool {
    match r {
        Ok(_) => ended(ledger, root0, temps, temps.len() as int, root1),
        Err(_) => exists|n: int, mid: RootView|
            0 <= n < temps.len() && #[trigger] ended(ledger, root0, temps, n, mid)
                && promote_outcome(ledger, mid, temps[n], root1, r),
    }
}

/// The course of a merge: the documents are taken in in order, and the
/// first that fails ends the merge with its failure; when none fails, the
/// merge ends as the end of a merge does.
pub open spec fn merge_course(
    ledger: LedgerView,
    root0: RootView,
    docs: Seq<ImageView>,
    root1: RootView,
    r: Result<(), LocalLedgerError>,
) -> bool {
    ||| exists|state: MergeView, mid: RootView|
        #[trigger] taken(ledger, root0, docs, docs.len() as int, state, mid) && end_outcome(
            ledger,
            mid,
            state.temps,
            root1,
            r,
        )
    ||| r is Err && exists|n: int, before: MergeView, mid: RootView, after: MergeView|
        0 <= n < docs.len() && #[trigger] taken(ledger, root0, docs, n, before, mid)
            && #[trigger] merge_doc_outcome(ledger, before, mid, docs[n], after, root1, r)
}

/// The uuids of a list of documents.
pub open spec fn uuids(docs: Seq<ImageView>) -> Seq<Seq<char>> {
    Seq::new(docs.len(), |i: int| docs[i].uuid)
}

/// The places of the files after the documents `temps` that waited under
/// a temp uuid were stored as primary documents, one after the other, and
/// their temp files deleted.
pub open spec fn promoted(places: Set<FileKey>, name: Seq<char>, temps: Seq<Seq<char>>) -> Set<
    FileKey,
>
    decreases temps.len(),
{
    if temps.len() == 0 {
        places
    } else {
        promoted(
            places.insert((name, temps[0])).remove((name, temp_of(temps[0]))),
            name,
            temps.skip(1),
        )
    }
}

/// The incoming documents are the local ones: each has a local document
/// of its uuid with the same revision chain, no two have the same uuid,
/// none would wait under the name of a file that exists, and the metadata
/// document does not conflict with the ledger's.
pub open spec fn matches_local(ledger: LedgerView, root: RootView, docs: Seq<ImageView>) -> bool {
    &&& forall|j: int|
        0 <= j < docs.len() ==> root.files.contains_key((ledger.name, (#[trigger] docs[j]).uuid))
            && root.files[(ledger.name, docs[j].uuid)].chain() == docs[j].chain()
    &&& forall|i: int, j: int|
        0 <= i < j < docs.len() ==> (#[trigger] docs[i]).uuid != (#[trigger] docs[j]).uuid
    &&& forall|j: int|
        0 <= j < docs.len() ==> !root.files.contains_key(
            (ledger.name, temp_of((#[trigger] docs[j]).uuid)),
        )
    &&& forall|j: int|
        0 <= j < docs.len() && (#[trigger] docs[j]).uuid == meta_uuid() ==> !diverges(
            ledger.meta_chain,
            docs[j].chain(),
        )
}

/// Where a merge of documents that are the local ones stands after `i` of
/// them, the first `m` of which wait under a temp uuid: nothing is
/// quarantined, the only new files are the temp files, and the local
/// documents still to come are as they were.
pub open spec fn kept(
    ledger: LedgerView,
    root0: RootView,
    docs: Seq<ImageView>,
    i: int,
    m: int,
    state: MergeView,
    root: RootView,
) -> bool {
    &&& 0 <= m <= i <= docs.len()
    &&& state.temps == uuids(docs.take(m))
    &&& state.conflicts.len() == 0
    &&& !state.meta_stored ==> m == i
    &&& root.files.dom() == root0.files.dom().union(temp_places(ledger.name, state.temps))
    &&& forall|j: int|
        i <= j < docs.len() ==> root.files[(ledger.name, (#[trigger] docs[j]).uuid)]
            == root0.files[(ledger.name, docs[j].uuid)]
}

proof fn lemma_temp_of_injective(a: Seq<char>, b: Seq<char>)
    requires
        temp_of(a) == temp_of(b),
    ensures
        a == b,
{
    crate::names::law_suffix_injective(a, b, crate::ledger::temp_suffix());
}

proof fn lemma_kept_step(
    ledger: LedgerView,
    root0: RootView,
    docs: Seq<ImageView>,
    i: int,
    m: int,
    state0: MergeView,
    before: RootView,
    state1: MergeView,
    after: RootView,
    r: Result<(), LocalLedgerError>,
)
    requires
        matches_local(ledger, root0, docs),
        0 <= i < docs.len(),
        kept(ledger, root0, docs, i, m, state0, before),
        merge_doc_outcome(ledger, state0, before, docs[i], state1, after, r),
        r is Ok,
    ensures
        kept(ledger, root0, docs, i + 1, if state1.meta_stored { m } else { i + 1 }, state1, after),
{
    let name = ledger.name;
    let doc = docs[i];
    let dom0 = root0.files.dom();
    assert(before.files[(name, doc.uuid)] == root0.files[(name, doc.uuid)]);
    assert(before.files.dom().contains((name, doc.uuid)));
    assert(!clashes(before, name, doc)) by {
        crate::revision::law_extension_is_fast_forward(doc.chain(), Seq::empty());
    }
    if doc.uuid == meta_uuid() {
        let image = choose|image: ImageView|
            after == #[trigger] before.written(name, meta_uuid(), image);
        assert(after.files.dom() =~= before.files.dom());
        assert forall|j: int| i + 1 <= j < docs.len() implies after.files[(
            name,
            (#[trigger] docs[j]).uuid,
        )] == root0.files[(name, docs[j].uuid)] by {
            assert(docs[i].uuid != docs[j].uuid);
        }
    } else if !state0.meta_stored {
        assert(m == i);
        assert(docs.take(i + 1) =~= docs.take(i).push(doc));
        assert(uuids(docs.take(i + 1)) =~= uuids(docs.take(i)).push(doc.uuid));
        lemma_temp_places_push(name, state0.temps, doc.uuid);
        assert(after.files.dom() =~= dom0.union(temp_places(name, state1.temps)));
        assert forall|j: int| i + 1 <= j < docs.len() implies after.files[(
            name,
            (#[trigger] docs[j]).uuid,
        )] == root0.files[(name, docs[j].uuid)] by {
            assert(dom0.contains((name, docs[j].uuid)));
            assert(!dom0.contains((name, temp_of(docs[i].uuid))));
        }
    } else {
        let (sealed, blank, rev) = choose|sealed: Seq<u8>, blank: Seq<u8>, rev: Seq<char>|
            taken_in(before, name, doc, sealed, blank, rev, after);
        assert(after.files.dom() =~= before.files.dom());
        assert forall|j: int| i + 1 <= j < docs.len() implies after.files[(
            name,
            (#[trigger] docs[j]).uuid,
        )] == root0.files[(name, docs[j].uuid)] by {
            assert(docs[i].uuid != docs[j].uuid);
        }
    }
}

proof fn lemma_promoted_back(
    places: Set<FileKey>,
    name: Seq<char>,
    temps: Seq<Seq<char>>,
)
    requires
        forall|k: int| 0 <= k < temps.len() ==> places.contains((name, #[trigger] temps[k])),
        forall|k: int|
            0 <= k < temps.len() ==> !places.contains((name, temp_of(#[trigger] temps[k]))),
        forall|a: int, b: int|
            0 <= a < b < temps.len() ==> (#[trigger] temps[a]) != (#[trigger] temps[b]),
    ensures
        promoted(places.union(temp_places(name, temps)), name, temps) == places,
    decreases temps.len(),
{
    let all = places.union(temp_places(name, temps));
    if temps.len() == 0 {
        assert(all =~= places);
    } else {
        let first = temps[0];
        let rest = temps.skip(1);
        let next = all.insert((name, first)).remove((name, temp_of(first)));
        assert forall|k: int| 0 <= k < rest.len() implies places.contains(
            (name, #[trigger] rest[k]),
        ) by {
            assert(rest[k] == temps[k + 1]);
        }
        assert forall|k: int| 0 <= k < rest.len() implies !places.contains(
            (name, temp_of(#[trigger] rest[k])),
        ) by {
            assert(rest[k] == temps[k + 1]);
        }
        assert forall|a: int, b: int| 0 <= a < b < rest.len() implies (#[trigger] rest[a]) != (
        #[trigger] rest[b]) by {
            assert(rest[a] == temps[a + 1]);
            assert(rest[b] == temps[b + 1]);
        }
        assert(next =~= places.union(temp_places(name, rest))) by {
            assert forall|key: FileKey| next.contains(key) <==> places.union(
                temp_places(name, rest),
            ).contains(key) by {
                if temp_places(name, rest).contains(key) {
                    let k = choose|k: int|
                        0 <= k < rest.len() && key == (name, temp_of(#[trigger] rest[k]));
                    assert(rest[k] == temps[k + 1]);
                    assert(temp_places(name, temps).contains(key));
                    if key == (name, temp_of(first)) {
                        lemma_temp_of_injective(rest[k], first);
                        assert(temps[0] != temps[k + 1]);
                    }
                }
                if temp_places(name, temps).contains(key) && key != (name, temp_of(first)) {
                    let k = choose|k: int|
                        0 <= k < temps.len() && key == (name, temp_of(#[trigger] temps[k]));
                    assert(k > 0);
                    assert(rest[k - 1] == temps[k]);
                }
                if key == (name, temp_of(first)) {
                    assert(!places.contains((name, temp_of(temps[0]))));
                }
                assert(places.contains((name, temps[0])));
            }
        }
        lemma_promoted_back(places, name, rest);
    }
}

/// A merge of documents that are the local ones creates no file and
/// records no conflict: where it succeeds, the tree has exactly the files
/// it had, in the ledger's directory and in its conflict directory.
pub proof fn law_merge_of_local_documents(
    ledger: LedgerView,
    root0: RootView,
    docs: Seq<ImageView>,
    root1: RootView,
    r: Result<(), LocalLedgerError>,
)
    requires
        merge_outcome(ledger, root0, docs, root1, r),
        matches_local(ledger, root0, docs),
        r is Ok,
    ensures
        root1.files.dom() == root0.files.dom(),
        root1.stems(ledger.name) == root0.stems(ledger.name),
        root1.stems(conflicts_dir(ledger.name)) == root0.stems(conflicts_dir(ledger.name)),
{
    assert(root1.stems(ledger.name) =~= root0.stems(ledger.name));
    assert(root1.stems(conflicts_dir(ledger.name)) =~= root0.stems(conflicts_dir(ledger.name)));
}

/// A merge of documents that all conflict with the local ones, none of
/// them the metadata document, succeeds; it leaves every file of the
/// ledger's own directory as it was, and puts every document into the
/// conflict directory.
pub proof fn law_merge_of_conflicts(
    ledger: LedgerView,
    root0: RootView,
    docs: Seq<ImageView>,
    root1: RootView,
    r: Result<(), LocalLedgerError>,
)
    requires
        merge_outcome(ledger, root0, docs, root1, r),
        no_meta_before(docs, docs.len() as int),
        forall|j: int| 0 <= j < docs.len() ==> clashes(root0, ledger.name, #[trigger] docs[j]),
    ensures
        r is Ok,
        forall|stem: Seq<char>| #[trigger]
            root1.file(ledger.name, stem) == root0.file(ledger.name, stem),
        forall|j: int|
            0 <= j < docs.len() ==> root1.files.contains_key(
                (conflicts_dir(ledger.name), conflict_of((#[trigger] docs[j]).uuid)),
            ),
{
    law_all_quarantined(root0, ledger.name, docs);
}

/// A merge whose first metadata document conflicts with the ledger's
/// fails with a metadata conflict and leaves no file that was not there
/// before, changes no file, and keeps every file but those in the places
/// where it had set documents aside.
pub proof fn law_meta_conflict_is_undone(
    ledger: LedgerView,
    root0: RootView,
    docs: Seq<ImageView>,
    k: int,
    root1: RootView,
    r: Result<(), LocalLedgerError>,
)
    requires
        merge_outcome(ledger, root0, docs, root1, r),
        first_meta_at(docs, k),
        diverges(ledger.meta_chain, docs[k].chain()),
    ensures
        fails_with(r, LocalLedgerErrorType::MetaDocConflict, meta_conflict_message()),
        forall|key: FileKey| #[trigger]
            root1.files.contains_key(key) ==> root0.files.contains_key(key) && root1.files[key]
                == root0.files[key],
        forall|key: FileKey|
            root0.files.contains_key(key) && !all_noted(root0, ledger.name, docs.take(k)).places(
                ledger.name,
            ).contains(key) ==> #[trigger] root1.files.contains_key(key),
        forall|key: FileKey|
            all_noted(root0, ledger.name, docs.take(k)).places(ledger.name).contains(key)
                ==> !(#[trigger] root1.files.contains_key(key)),
{
    assert(first_meta_at(docs, k) && diverges(ledger.meta_chain, docs[k].chain()));
}

/// The document `uuid` has arrived in ledger `name`, or waits for the end
/// of the merge: it has a primary file, or a conflict sibling, or a temp
/// file and a place from `from` on among the waiting documents `temps`.
pub open spec fn arrived_or_waits(
    root: RootView,
    name: Seq<char>,
    temps: Seq<Seq<char>>,
    from: int,
    uuid: Seq<char>,
) -> bool {
    ||| root.files.contains_key((name, uuid))
    ||| root.files.contains_key((conflicts_dir(name), conflict_of(uuid)))
    ||| root.files.contains_key((name, temp_of(uuid))) && exists|i: int|
        from <= i < temps.len() && #[trigger] temps[i] == uuid
}

proof fn lemma_taken_arrive(
    ledger: LedgerView,
    root0: RootView,
    docs: Seq<ImageView>,
    n: int,
    state: MergeView,
    root: RootView,
)
    requires
        0 <= n <= docs.len(),
        taken(ledger, root0, docs, n, state, root),
    ensures
        forall|j: int|
            0 <= j < n && (#[trigger] docs[j]).uuid != meta_uuid() ==> arrived_or_waits(
                root,
                ledger.name,
                state.temps,
                0,
                docs[j].uuid,
            ),
    decreases n,
{
    if n > 0 {
        let name = ledger.name;
        let (before, mid, done) = choose|
            before: MergeView,
            mid: RootView,
            done: Result<(), LocalLedgerError>,
        |
            taken(ledger, root0, docs, n - 1, before, mid) && done is Ok
                && #[trigger] merge_doc_outcome(ledger, before, mid, docs[n - 1], state, root, done);
        lemma_taken_arrive(ledger, root0, docs, n - 1, before, mid);
        let doc = docs[n - 1];
        assert(forall|key: FileKey| mid.files.contains_key(key) ==> root.files.contains_key(key)) by {
            if doc.uuid == meta_uuid() {
                let image = choose|image: ImageView|
                    root == #[trigger] mid.written(name, meta_uuid(), image);
            } else if clashes(mid, name, doc) || !before.meta_stored {
            } else {
                let (sealed, blank, rev) = choose|sealed: Seq<u8>, blank: Seq<u8>, rev: Seq<char>|
                    taken_in(mid, name, doc, sealed, blank, rev, root);
            }
        }
        assert(forall|i: int|
            0 <= i < before.temps.len() ==> i < state.temps.len() && state.temps[i]
                == #[trigger] before.temps[i]);
        assert forall|j: int| 0 <= j < n && (#[trigger] docs[j]).uuid != meta_uuid() implies arrived_or_waits(
            root,
            name,
            state.temps,
            0,
            docs[j].uuid,
        ) by {
            let uuid = docs[j].uuid;
            if j < n - 1 {
                assert(arrived_or_waits(mid, name, before.temps, 0, uuid));
                if !mid.files.contains_key((name, uuid)) && !mid.files.contains_key(
                    (conflicts_dir(name), conflict_of(uuid)),
                ) {
                    let i = choose|i: int|
                        0 <= i < before.temps.len() && #[trigger] before.temps[i] == uuid;
                    assert(state.temps[i] == uuid);
                }
            } else if clashes(mid, name, doc) {
            } else if !before.meta_stored {
                assert(state.temps[before.temps.len() as int] == uuid);
            } else {
                let (sealed, blank, rev) = choose|sealed: Seq<u8>, blank: Seq<u8>, rev: Seq<char>|
                    taken_in(mid, name, doc, sealed, blank, rev, root);
            }
        }
    }
}

proof fn lemma_ended_arrive(
    ledger: LedgerView,
    root0: RootView,
    temps: Seq<Seq<char>>,
    n: int,
    root: RootView,
    uuid: Seq<char>,
)
    requires
        0 <= n <= temps.len(),
        ended(ledger, root0, temps, n, root),
        arrived_or_waits(root0, ledger.name, temps, 0, uuid),
        !ends_with(uuid, temp_suffix()),
    ensures
        arrived_or_waits(root, ledger.name, temps, n, uuid),
    decreases n,
{
    if n > 0 {
        let name = ledger.name;
        let (mid, done) = choose|mid: RootView, done: Result<(), LocalLedgerError>|
            ended(ledger, root0, temps, n - 1, mid) && done is Ok && #[trigger] promote_outcome(
                ledger,
                mid,
                temps[n - 1],
                root,
                done,
            );
        lemma_ended_arrive(ledger, root0, temps, n - 1, mid, uuid);
        let moved = temps[n - 1];
        let image = mid.file(name, temp_of(moved))->0;
        let (sealed, blank, rev) = choose|sealed: Seq<u8>, blank: Seq<u8>, rev: Seq<char>|
            promoted_as(mid, name, moved, image, sealed, blank, rev, root);
        assert(conflicts_dir(name) != name) by {
            reveal_strlit("_conflicts");
            assert(conflicts_dir(name).len() == name.len() + 10);
        }
        assert(uuid != temp_of(moved)) by {
            if uuid == temp_of(moved) {
                assert(uuid.subrange(uuid.len() - temp_suffix().len(), uuid.len() as int)
                    =~= temp_suffix());
            }
        }
        if temp_of(moved) == temp_of(uuid) {
            lemma_temp_of_injective(moved, uuid);
        }
        if mid.files.contains_key((name, uuid)) {
            assert(root.files.contains_key((name, uuid)));
        } else if mid.files.contains_key((conflicts_dir(name), conflict_of(uuid))) {
            assert(root.files.contains_key((conflicts_dir(name), conflict_of(uuid))));
        } else {
            let i = choose|i: int| n - 1 <= i < temps.len() && #[trigger] temps[i] == uuid;
            if moved == uuid {
                assert(root.files.contains_key((name, uuid)));
            } else {
                assert(root.files.contains_key((name, temp_of(uuid))));
                assert(n <= i < temps.len() && temps[i] == uuid);
            }
        }
    }
}

/// After a merge without error, every incoming document other than the
/// metadata document has arrived: the ledger's directory holds a document
/// of its uuid, or the conflict directory holds its sibling. This holds
/// where no incoming uuid ends like a temp uuid.
pub proof fn law_merged_documents_arrive(
    ledger: LedgerView,
    root0: RootView,
    docs: Seq<ImageView>,
    root1: RootView,
    r: Result<(), LocalLedgerError>,
)
    requires
        merge_course(ledger, root0, docs, root1, r),
        r is Ok,
        forall|j: int| 0 <= j < docs.len() ==> !ends_with((#[trigger] docs[j]).uuid, temp_suffix()),
    ensures
        forall|j: int|
            0 <= j < docs.len() && (#[trigger] docs[j]).uuid != meta_uuid()
                ==> root1.files.contains_key((ledger.name, docs[j].uuid))
                || root1.files.contains_key(
                (conflicts_dir(ledger.name), conflict_of(docs[j].uuid)),
            ),
{
    let name = ledger.name;
    let (state, mid) = choose|state: MergeView, mid: RootView|
        #[trigger] taken(ledger, root0, docs, docs.len() as int, state, mid) && end_outcome(
            ledger,
            mid,
            state.temps,
            root1,
            r,
        );
    lemma_taken_arrive(ledger, root0, docs, docs.len() as int, state, mid);
    assert forall|j: int| 0 <= j < docs.len() && (#[trigger] docs[j]).uuid != meta_uuid() implies root1.files.contains_key(
        (name, docs[j].uuid),
    ) || root1.files.contains_key((conflicts_dir(name), conflict_of(docs[j].uuid))) by {
        lemma_ended_arrive(ledger, mid, state.temps, state.temps.len() as int, root1, docs[j].uuid);
    }
}

proof fn lemma_confined_trans(a: RootView, b: RootView, c: RootView, name: Seq<char>)
    requires
        confined(a, b, name),
        confined(b, c, name),
    ensures
        confined(a, c, name),
{
    assert forall|key: FileKey| key.0 != name && key.0 != conflicts_dir(name) implies #[trigger]
        c.file(key.0, key.1) == a.file(key.0, key.1) by {
        assert(b.file(key.0, key.1) == a.file(key.0, key.1));
    }
}

proof fn lemma_confined_written(root: RootView, name: Seq<char>, label: Seq<char>, stem: Seq<char>, image: ImageView)
    requires
        label == name || label == conflicts_dir(name),
    ensures
        confined(root, root.written(label, stem, image), name),
        confined(root, root.without(label, stem), name),
        confined(root, root.with_dir(label), name),
        confined(root, root, name),
{
}

proof fn lemma_confined_undone(root0: RootView, root1: RootView, name: Seq<char>, state: MergeView)
    requires
        root1.path == root0.path,
        root1.dirs == root0.dirs,
        root1.files == root0.files.remove_keys(state.places(name)),
    ensures
        confined(root0, root1, name),
{
}

proof fn lemma_taken_step(
    ledger: LedgerView,
    root0: RootView,
    docs: Seq<ImageView>,
    n: int,
    before: MergeView,
    mid: RootView,
    done: Result<(), LocalLedgerError>,
    state: MergeView,
    root: RootView,
)
    requires
        n > 0,
        taken(ledger, root0, docs, n - 1, before, mid),
        done is Ok,
        merge_doc_outcome(ledger, before, mid, docs[n - 1], state, root, done),
    ensures
        taken(ledger, root0, docs, n, state, root),
{
}

proof fn lemma_ended_step(
    ledger: LedgerView,
    root0: RootView,
    temps: Seq<Seq<char>>,
    n: int,
    mid: RootView,
    done: Result<(), LocalLedgerError>,
    root: RootView,
)
    requires
        n > 0,
        ended(ledger, root0, temps, n - 1, mid),
        done is Ok,
        promote_outcome(ledger, mid, temps[n - 1], root, done),
    ensures
        ended(ledger, root0, temps, n, root),
{
}

proof fn lemma_promote_confined(
    ledger: LedgerView,
    root0: RootView,
    uuid: Seq<char>,
    root1: RootView,
    r: Result<(), LocalLedgerError>,
)
    requires
        promote_outcome(ledger, root0, uuid, root1, r),
    ensures
        confined(root0, root1, ledger.name),
        r matches Err(e) ==> e.err_type != LocalLedgerErrorType::MetaDocConflict,
{
    let name = ledger.name;
    lemma_confined_written(root0, name, name, uuid, ImageView { uuid, ..arbitrary() });
    if root0.file(name, temp_of(uuid)) is Some && r is Ok {
        let image = root0.file(name, temp_of(uuid))->0;
        let (sealed, blank, rev) = choose|sealed: Seq<u8>, blank: Seq<u8>, rev: Seq<char>|
            promoted_as(root0, name, uuid, image, sealed, blank, rev, root1);
        let stored = resealed(ImageView { label: name, uuid, ..image }, sealed, blank, rev);
        let mid = root0.written(name, uuid, stored);
        lemma_confined_written(root0, name, name, uuid, stored);
        lemma_confined_written(mid, name, name, temp_of(uuid), stored);
        lemma_confined_trans(root0, mid, root1, name);
    }
}

proof fn lemma_step_confined(
    ledger: LedgerView,
    state0: MergeView,
    root0: RootView,
    doc: ImageView,
    state1: MergeView,
    root1: RootView,
    r: Result<(), LocalLedgerError>,
)
    requires
        merge_doc_outcome(ledger, state0, root0, doc, state1, root1, r),
    ensures
        confined(root0, root1, ledger.name),
{
    let name = ledger.name;
    if doc.uuid == meta_uuid() {
        if diverges(ledger.meta_chain, doc.chain()) {
            lemma_confined_undone(root0, root1, name, state0);
        } else if r is Ok {
            let image = choose|image: ImageView|
                root1 == #[trigger] root0.written(name, meta_uuid(), image);
            lemma_confined_written(root0, name, name, meta_uuid(), image);
        } else {
            lemma_confined_written(root0, name, name, meta_uuid(), doc);
        }
    } else if clashes(root0, name, doc) || !state0.meta_stored {
        lemma_confined_written(
            root0,
            name,
            conflicts_dir(name),
            conflict_of(doc.uuid),
            quarantined(name, doc),
        );
        lemma_confined_written(root0, name, name, temp_of(doc.uuid), staged(name, doc));
    } else if r is Ok {
        let (sealed, blank, rev) = choose|sealed: Seq<u8>, blank: Seq<u8>, rev: Seq<char>|
            taken_in(root0, name, doc, sealed, blank, rev, root1);
        lemma_confined_written(
            root0,
            name,
            name,
            doc.uuid,
            resealed(ImageView { label: name, ..doc }, sealed, blank, rev),
        );
    } else {
        lemma_confined_written(root0, name, name, doc.uuid, doc);
    }
}

impl MergeState {
    /// The state at the start of a merge.
    pub fn new() -> (state: Self)
        ensures
            state@ == MergeView::start(),
    {
        let state = MergeState {
            meta_stored: false,
            temp_uuids: Vec::new(),
            conflict_uuids: Vec::new(),
        };
        assert(state@.temps =~= Seq::empty());
        assert(state@.conflicts =~= Seq::empty());
        state
    }
}

/// Deletes every temp file and every conflict sibling that the merge wrote.
fn roll_back(root: &mut StoreRoot, name: &str, state: &MergeState)
    ensures
        final(root)@.path == old(root)@.path,
        final(root)@.dirs == old(root)@.dirs,
        final(root)@.files == old(root)@.files.remove_keys(state@.places(name@)),
{
    let ghost temps = state@.temps;
    let ghost conflicts = state@.conflicts;
    let mut i: usize = 0;
    assert(root@.files =~= old(root)@.files.remove_keys(temp_places(name@, temps.take(0))));
    while i < state.temp_uuids.len()
        invariant
            i <= state.temp_uuids.len(),
            temps == texts(state.temp_uuids@),
            root@.path == old(root)@.path,
            root@.dirs == old(root)@.dirs,
            root@.files == old(root)@.files.remove_keys(temp_places(name@, temps.take(i as int))),
        decreases state.temp_uuids.len() - i,
    {
        let temp = with_suffix(state.temp_uuids[i].as_str(), "__temp");
        let _gone = root.remove_file(name, temp.as_str());
        proof {
            assert(temps.take(i + 1) =~= temps.take(i as int).push(temps[i as int]));
            lemma_temp_places_push(name@, temps.take(i as int), temps[i as int]);
            assert(root@.files =~= old(root)@.files.remove_keys(
                temp_places(name@, temps.take(i + 1)),
            ));
        }
        i = i + 1;
    }
    assert(temps.take(temps.len() as int) =~= temps);
    let ghost mid = root@.files;
    let mut j: usize = 0;
    let dir = with_suffix(name, "_conflicts");
    assert(root@.files =~= mid.remove_keys(conflict_places(name@, conflicts.take(0))));
    while j < state.conflict_uuids.len()
        invariant
            j <= state.conflict_uuids.len(),
            conflicts == texts(state.conflict_uuids@),
            dir@ == conflicts_dir(name@),
            root@.path == old(root)@.path,
            root@.dirs == old(root)@.dirs,
            root@.files == mid.remove_keys(conflict_places(name@, conflicts.take(j as int))),
        decreases state.conflict_uuids.len() - j,
    {
        let sibling = with_suffix(state.conflict_uuids[j].as_str(), "__conflict");
        let _gone = root.remove_file(dir.as_str(), sibling.as_str());
        proof {
            assert(conflicts.take(j + 1) =~= conflicts.take(j as int).push(conflicts[j as int]));
            lemma_conflict_places_push(name@, conflicts.take(j as int), conflicts[j as int]);
            assert(root@.files =~= mid.remove_keys(conflict_places(name@, conflicts.take(j + 1))));
        }
        j = j + 1;
    }
    proof {
        assert(conflicts.take(conflicts.len() as int) =~= conflicts);
        assert(root@.files =~= old(root)@.files.remove_keys(state@.places(name@)));
    }
}

impl<T: Payload> LocalLedger<T> {
    /// Decrypts the incoming document `doc` with the ledger's passphrase
    /// and stores it, encrypted again, as the primary document `uuid`.
    fn take_in(&self, root: &mut StoreRoot, doc: DocImage) -> (r: Result<(), LocalLedgerError>)
        ensures
            match r {
                Ok(_) => exists|sealed: Seq<u8>, blank: Seq<u8>, rev: Seq<char>|
                    taken_in(old(root)@, self@.name, doc@, sealed, blank, rev, final(root)@),
                Err(_) => refused(old(root)@, self@.name, final(root)@, r),
            },
    {
        let plain = match decrypt_with(self.passphrase(), &doc.encrypted_data) {
            Ok(plain) => plain,
            Err(e) => {
                return Err(e);
            },
        };
        let data = match T::decode(&plain) {
            Ok(data) => data,
            Err(why) => {
                return Err(
                    LocalLedgerError::with_detail(
                        "Failed to parse decrypted data: ",
                        why.as_str(),
                    ),
                );
            },
        };
        let blank = match T::blank().encode() {
            Ok(blank) => blank,
            Err(why) => {
                return Err(LocalLedgerError::new(why.as_str()));
            },
        };
        let again = match data.encode() {
            Ok(again) => again,
            Err(why) => {
                return Err(
                    LocalLedgerError::with_detail("Failed to serialize document: ", why.as_str()),
                );
            },
        };
        let sealed = match encrypt_with(self.passphrase(), &again) {
            Ok(sealed) => sealed,
            Err(e) => {
                return Err(e);
            },
        };
        let ghost incoming = doc@;
        let mut local = Document::<T>::from_image(doc, data);
        local.relabel(self.name());
        let new_rev = match local.draw_revision() {
            Ok(new_rev) => new_rev,
            Err(e) => {
                return Err(e);
            },
        };
        let ghost cipher = sealed@;
        let ghost filler = blank@;
        let stored = local.store_sealed(root, sealed, blank, new_rev);
        match stored {
            Ok(()) => {
                proof {
                    assert(local@.image(filler) == resealed(
                        ImageView { label: self@.name, ..incoming },
                        cipher,
                        filler,
                        new_rev@,
                    ));
                    assert(taken_in(
                        old(root)@,
                        self@.name,
                        incoming,
                        cipher,
                        filler,
                        new_rev@,
                        root@,
                    ));
                }
                Ok(())
            },
            Err(e) => Err(e),
        }
    }

    /// Stores the peer's metadata document as the ledger's.
    fn take_in_meta(&self, root: &mut StoreRoot, doc: DocImage) -> (r: Result<(), LocalLedgerError>)
        requires
            doc@.uuid == meta_uuid(),
        ensures
            meta_taken(self@.name, old(root)@, doc@, final(root)@, r),
            match r {
                Ok(_) => wrote_at(old(root)@, self@.name, meta_uuid(), final(root)@),
                Err(_) => refused(old(root)@, self@.name, final(root)@, r),
            },
    {
        let ghost given = doc@;
        let meta = match LocalLedgerMetaData::decode(&doc.data) {
            Ok(meta) => meta,
            Err(why) => {
                return Err(LocalLedgerError::new(why.as_str()));
            },
        };
        let ghost hash = meta.pw_hash@;
        let mut incoming = Document::<LocalLedgerMetaData>::from_image(doc, meta);
        incoming.relabel(self.name());
        let ghost before = incoming@;
        let r = incoming.store(root);
        proof {
            if before.readable() {
                let (encoded, drawn) = choose|
                    encoded: Result<Vec<u8>, String>,
                    drawn: Result<String, LocalLedgerError>,
                |
                    encoding_gave(before.data, encoded) && draw_outcome(before.chain(), drawn)
                        && #[trigger] cleartext_store_outcome(
                        before,
                        old(root)@,
                        encoded,
                        drawn,
                        incoming@,
                        root@,
                        r,
                    );
                assert(encoded matches Ok(bytes) && bytes@ == json_object(meta_fields(hash)));
                if drawn is Ok {
                    let rev = drawn->Ok_0@;
                    let image = meta_image(self@.name, given, hash, rev);
                    assert(before.cleartext().advanced(rev).image(encoded->Ok_0@) == image);
                    assert(before.cleartext().advanced(rev).chain() == image.chain());
                }
                assert(meta_stored_with(self@.name, old(root)@, given, hash, drawn, root@, r));
                if r is Ok {
                    assert(root@ == old(root)@.written(
                        self@.name,
                        meta_uuid(),
                        meta_image(self@.name, given, hash, drawn->Ok_0@),
                    ));
                }
            }
        }
        r
    }

    /// Takes in one document of the peer's dump.
    pub fn merge_doc(&self, root: &mut StoreRoot, state: &mut MergeState, doc: DocImage) -> (r:
        Result<(), LocalLedgerError>)
        ensures
            merge_doc_outcome(
                self@,
                old(state)@,
                old(root)@,
                doc@,
                final(state)@,
                final(root)@,
                r,
            ),
    {
        let meta: String = META_DOC_UUID.to_owned();
        if doc.uuid == meta {
            if Document::check_for_conflict(self.meta_doc(), &doc) {
                roll_back(root, self.name(), state);
                return Err(
                    LocalLedgerError::meta_doc_conflict("META_DOC conflict found during merge."),
                );
            }
            let r = self.take_in_meta(root, doc);
            if r.is_ok() {
                state.meta_stored = true;
            }
            return r;
        }
        let conflict = match root.read_file(self.name(), doc.uuid.as_str()) {
            Some(local) => local.conflicts_with(&doc),
            None => false,
        };
        if conflict {
            let dir = with_suffix(self.name(), "_conflicts");
            let sibling = with_suffix(doc.uuid.as_str(), "__conflict");
            let uuid = doc.uuid.clone();
            let mut image = doc;
            image.label = dir.clone();
            image.uuid = sibling.clone();
            root.write_file(dir.as_str(), sibling.as_str(), image);
            proof {
                lemma_texts_push(state.conflict_uuids@, uuid);
            }
            state.conflict_uuids.push(uuid);
            return Ok(());
        }
        if !state.meta_stored {
            let temp = with_suffix(doc.uuid.as_str(), "__temp");
            let uuid = doc.uuid.clone();
            let mut image = doc;
            image.label = self.name().to_owned();
            image.uuid = temp.clone();
            root.write_file(self.name(), temp.as_str(), image);
            proof {
                lemma_texts_push(state.temp_uuids@, uuid);
            }
            state.temp_uuids.push(uuid);
            return Ok(());
        }
        self.take_in(root, doc)
    }

    /// Stores the document `uuid` that waits under its temp uuid as the
    /// primary document of its uuid, and deletes the temp file.
    fn promote(&self, root: &mut StoreRoot, uuid: &String) -> (r: Result<(), LocalLedgerError>)
        ensures
            promote_outcome(self@, old(root)@, uuid@, final(root)@, r),
    {
        let temp = with_suffix(uuid.as_str(), "__temp");
        let mut image = match root.read_file(self.name(), temp.as_str()) {
            Some(image) => image,
            None => {
                return Err(LocalLedgerError::with_detail("Document not found: ", temp.as_str()));
            },
        };
        let ghost waiting = image@;
        image.uuid = uuid.clone();
        let ghost doc = image@;
        let taken = self.take_in(root, image);
        match taken {
            Ok(()) => {},
            Err(e) => {
                return Err(e);
            },
        }
        let ghost mid = root@;
        let _gone = root.remove_file(self.name(), temp.as_str());
        proof {
            let (sealed, blank, rev) = choose|sealed: Seq<u8>, blank: Seq<u8>, rev: Seq<char>|
                taken_in(old(root)@, self@.name, doc, sealed, blank, rev, mid);
            assert((ImageView { label: self@.name, ..doc }) == (ImageView {
                label: self@.name,
                uuid: uuid@,
                ..waiting
            }));
            assert(promoted_as(
                old(root)@,
                self@.name,
                uuid@,
                waiting,
                sealed,
                blank,
                rev,
                root@,
            ));
            let found = old(root)@.file(self@.name, temp_of(uuid@));
            assert(found == Some(waiting));
            assert(promoted_as(
                old(root)@,
                self@.name,
                uuid@,
                found->0,
                sealed,
                blank,
                rev,
                root@,
            ));
        }
        Ok(())
    }

    /// Ends a merge whose documents were all taken in: every document
    /// that waits under a temp uuid is decrypted, stored as the primary
    /// document of its uuid, and its temp file deleted.
    pub fn merge_end(&self, root: &mut StoreRoot, state: &MergeState) -> (r: Result<
        (),
        LocalLedgerError,
    >)
        ensures
            end_outcome(self@, old(root)@, state@.temps, final(root)@, r),
            confined(old(root)@, final(root)@, self@.name),
            state@.temps.len() == 0 ==> r is Ok && final(root)@ == old(root)@,
            r is Ok ==> final(root)@.files.dom() == promoted(
                old(root)@.files.dom(),
                self@.name,
                state@.temps,
            ),
            r matches Err(e) ==> e.err_type != LocalLedgerErrorType::MetaDocConflict,
    {
        let mut i: usize = 0;
        proof {
            lemma_confined_written(root@, self@.name, self@.name, self@.name, arbitrary());
            assert(state@.temps.skip(0) =~= state@.temps);
        }
        while i < state.temp_uuids.len()
            invariant
                i <= state.temp_uuids.len(),
                ended(self@, old(root)@, state@.temps, i as int, root@),
                confined(old(root)@, root@, self@.name),
                state@.temps.len() == 0 ==> root@ == old(root)@,
                promoted(root@.files.dom(), self@.name, state@.temps.skip(i as int)) == promoted(
                    old(root)@.files.dom(),
                    self@.name,
                    state@.temps,
                ),
            decreases state.temp_uuids.len() - i,
        {
            let ghost before = root@;
            let ghost waiting = state@.temps.skip(i as int);
            proof {
                assert(waiting[0] == state@.temps[i as int]);
                assert(waiting.skip(1) =~= state@.temps.skip(i + 1));
            }
            let r = self.promote(root, &state.temp_uuids[i]);
            proof {
                lemma_promote_confined(self@, before, state@.temps[i as int], root@, r);
                lemma_confined_trans(old(root)@, before, root@, self@.name);
            }
            match r {
                Ok(()) => {},
                Err(e) => {
                    assert(ended(self@, old(root)@, state@.temps, i as int, before)
                        && promote_outcome(self@, before, state@.temps[i as int], root@, r));
                    return Err(e);
                },
            }
            proof {
                let image = before.file(self@.name, temp_of(waiting[0]))->0;
                let (sealed, blank, rev) = choose|sealed: Seq<u8>, blank: Seq<u8>, rev: Seq<char>|
                    promoted_as(before, self@.name, waiting[0], image, sealed, blank, rev, root@);
                assert(root@.files.dom() =~= before.files.dom().insert(
                    (self@.name, waiting[0]),
                ).remove((self@.name, temp_of(waiting[0]))));
                lemma_ended_step(self@, old(root)@, state@.temps, i + 1, before, r, root@);
            }
            i = i + 1;
        }
        assert(state@.temps.skip(state@.temps.len() as int) =~= Seq::<Seq<char>>::empty());
        Ok(())
    }

    /// Merges a peer's dump into the ledger: takes in its documents in
    /// order, then ends the merge.
    pub fn merge(&self, root: &mut StoreRoot, incoming: &Vec<DocImage>) -> (r: Result<
        (),
        LocalLedgerError,
    >)
        ensures
            merge_outcome(self@, old(root)@, images(incoming@), final(root)@, r),
    {
        let ghost docs = images(incoming@);
        let ghost name = self@.name;
        let ghost root0 = root@;
        let ghost mut aside: bool = true;
        let ghost mut waiting: int = 0;
        let mut state = MergeState::new();
        let mut i: usize = 0;
        proof {
            lemma_confined_written(root0, name, name, name, arbitrary());
            assert(uuids(docs.take(0)) =~= Seq::<Seq<char>>::empty());
            assert(root0.files.dom().union(temp_places(name, Seq::empty())) =~= root0.files.dom());
        }
        while i < incoming.len()
            invariant
                i <= incoming.len(),
                docs == images(incoming@),
                name == self@.name,
                root0 == old(root)@,
                confined(root0, root@, name),
                taken(self@, root0, docs, i as int, state@, root@),
                aside ==> root@ == all_set_aside(root0, name, docs.take(i as int)) && state@
                    == all_noted(root0, name, docs.take(i as int)) && no_meta_before(
                    docs,
                    i as int,
                ),
                !aside ==> exists|k: int|
                    first_meta_at(docs, k) && !diverges(self@.meta_chain, (#[trigger] docs[k]).chain()),
                matches_local(self@, root0, docs) ==> kept(
                    self@,
                    root0,
                    docs,
                    i as int,
                    waiting,
                    state@,
                    root@,
                ),
            decreases incoming.len() - i,
        {
            let ghost before = root@;
            let ghost noted_before = state@;
            let doc = incoming[i].duplicate();
            assert(doc@ == docs[i as int]);
            proof {
                law_set_aside_undone(root0, name, docs.take(i as int));
                assert(docs.take(i + 1).drop_last() =~= docs.take(i as int));
                assert(docs.take(i + 1).last() == docs[i as int]);
            }
            let r = self.merge_doc(root, &mut state, doc);
            proof {
                assert(taken(self@, root0, docs, i as int, noted_before, before)
                    && merge_doc_outcome(
                    self@,
                    noted_before,
                    before,
                    docs[i as int],
                    state@,
                    root@,
                    r,
                ));
                lemma_step_confined(self@, noted_before, before, docs[i as int], state@, root@, r);
                lemma_confined_trans(root0, before, root@, name);
                if aside && docs[i as int].uuid == meta_uuid() {
                    assert(first_meta_at(docs, i as int));
                }
            }
            match r {
                Ok(()) => {},
                Err(e) => {
                    proof {
                        assert forall|k: int| #[trigger]
                            first_meta_at(docs, k) && diverges(
                                self@.meta_chain,
                                docs[k].chain(),
                            ) implies fails_with(
                            r,
                            LocalLedgerErrorType::MetaDocConflict,
                            meta_conflict_message(),
                        ) && root@.files == root0.files.remove_keys(
                            all_noted(root0, name, docs.take(k)).places(name),
                        ) by {
                            lemma_first_meta_unique(docs, k, aside, i as int);
                        }
                        assert(!no_meta_before(docs, docs.len() as int)) by {
                            if aside {
                                assert(docs[i as int].uuid == meta_uuid());
                            } else {
                                let k = choose|k: int|
                                    first_meta_at(docs, k) && !diverges(
                                        self@.meta_chain,
                                        (#[trigger] docs[k]).chain(),
                                    );
                                assert(docs[k].uuid == meta_uuid());
                            }
                        }
                    }
                    return Err(e);
                },
            }
            proof {
                lemma_taken_step(
                    self@,
                    root0,
                    docs,
                    i + 1,
                    noted_before,
                    before,
                    r,
                    state@,
                    root@,
                );
                if aside && docs[i as int].uuid == meta_uuid() {
                    aside = false;
                }
                if matches_local(self@, root0, docs) {
                    lemma_kept_step(
                        self@,
                        root0,
                        docs,
                        i as int,
                        waiting,
                        noted_before,
                        before,
                        state@,
                        root@,
                        r,
                    );
                    if !state@.meta_stored {
                        waiting = i + 1;
                    }
                }
            }
            i = i + 1;
        }
        assert(docs.take(docs.len() as int) =~= docs);
        let ghost before = root@;
        let r = self.merge_end(root, &state);
        proof {
            if matches_local(self@, root0, docs) && r is Ok {
                let temps = state@.temps;
                assert forall|k: int| 0 <= k < temps.len() implies root0.files.dom().contains(
                    (name, #[trigger] temps[k]),
                ) && !root0.files.dom().contains((name, temp_of(temps[k]))) by {
                    assert(temps[k] == docs[k].uuid);
                }
                assert forall|a: int, b: int| 0 <= a < b < temps.len() implies (
                #[trigger] temps[a]) != (#[trigger] temps[b]) by {
                    assert(temps[a] == docs[a].uuid);
                    assert(temps[b] == docs[b].uuid);
                }
                lemma_promoted_back(root0.files.dom(), name, temps);
            }
            lemma_confined_trans(root0, before, root@, name);
            assert forall|k: int| #[trigger]
                first_meta_at(docs, k) && diverges(self@.meta_chain, docs[k].chain()) implies false by {
                if aside {
                    assert(docs[k].uuid != meta_uuid());
                } else {
                    let first = choose|first: int|
                        first_meta_at(docs, first) && !diverges(
                            self@.meta_chain,
                            (#[trigger] docs[first]).chain(),
                        );
                    if k < first {
                        assert(docs[k].uuid != meta_uuid());
                    } else if first < k {
                        assert(docs[first].uuid != meta_uuid());
                    }
                }
            }
            if !aside {
                let first = choose|first: int|
                    first_meta_at(docs, first) && !diverges(
                        self@.meta_chain,
                        (#[trigger] docs[first]).chain(),
                    );
                assert(docs[first].uuid == meta_uuid());
                assert(!no_meta_before(docs, docs.len() as int));
            }
        }
        r
    }
}

/// Two first metadata documents are the same document.
proof fn lemma_first_meta_unique(docs: Seq<ImageView>, k: int, aside: bool, i: int)
    requires
        first_meta_at(docs, k),
        0 <= i < docs.len(),
        aside ==> no_meta_before(docs, i),
    ensures
        aside ==> k >= i,
        aside && docs[i].uuid == meta_uuid() ==> k == i,
{
    if aside && k < i {
        assert(docs[k].uuid != meta_uuid());
    }
    if aside && docs[i].uuid == meta_uuid() && k > i {
        assert(docs[i].uuid != meta_uuid());
    }
}

} // verus!

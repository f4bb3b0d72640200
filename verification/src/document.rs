//! The document: one typed record, persisted as one file, with an
//! append-only revision chain that every write must extend.

use vstd::prelude::*;
use vstd::string::StringExecFns;
use crate::error::fails_as;
use crate::error::fails_with;
use crate::error::LocalLedgerError;
use crate::error::LocalLedgerErrorType;
use crate::ident::generate_id;
use crate::ident::is_id;
use crate::revision::check_for_conflict;
use crate::revision::diverges;
use crate::revision::lemma_texts_push;
use crate::revision::texts;
use crate::root::copy_bytes;
use crate::root::copy_strings;
use crate::root::DocImage;
use crate::root::ImageView;
use crate::root::RootView;
use crate::root::StoreRoot;

verus! {

/// What a payload type must offer to be kept in a document: its form in
/// the interchange format, the way back, and a default value.
///
/// The document layer promises nothing about what an implementation
/// returns; it passes the results on as they come.
pub trait Payload: Sized {
    /// The payload in the interchange format, or why it has none.
    fn encode(&self) -> Result<Vec<u8>, String>;

    /// The payload that `bytes` encode, or why they encode none.
    fn decode(bytes: &Vec<u8>) -> Result<Self, String>;

    /// The payload type's default value.
    fn blank() -> Self;
}

/// `encoded` is what the payload type's `encode` may give for `data`.
pub open spec fn encoding_gave<T: Payload>(data: T, encoded: Result<Vec<u8>, String>) -> bool {
    call_ensures(T::encode, (&data,), encoded)
}

/// `decoded` is what the payload type's `decode` may give for `bytes`.
pub open spec fn decoding_gave<T: Payload>(bytes: Seq<u8>, decoded: Result<T, String>) -> bool {
    exists|held: Vec<u8>| held@ == bytes && #[trigger] call_ensures(T::decode, (&held,), decoded)
}

/// `data` is what the payload type's `blank` may give.
pub open spec fn is_blank<T: Payload>(data: T) -> bool {
    call_ensures(T::blank, (), data)
}

/// `bytes` are what the payload type's `encode` may give for `data`.
pub open spec fn encodes_to<T: Payload>(data: T, bytes: Seq<u8>) -> bool {
    exists|held: Vec<u8>|
        held@ == bytes && #[trigger] encoding_gave(data, Ok::<Vec<u8>, String>(held))
}

/// `encoded` is what encoding a default value of the payload type may
/// give.
pub open spec fn blank_gave<T: Payload>(encoded: Result<Vec<u8>, String>) -> bool {
    exists|data: T| is_blank(data) && #[trigger] encoding_gave(data, encoded)
}

/// `bytes` are what encoding a default value of the payload type may give.
pub open spec fn blank_encoding<T: Payload>(bytes: Seq<u8>) -> bool {
    exists|data: T| is_blank(data) && #[trigger] encodes_to(data, bytes)
}

/// A record of a ledger.
#[derive(Debug)]
pub struct Document<T> {
    label: String,
    uuid: String,
    rev: String,
    data: T,
    seq: i64,
    encrypted_data: Vec<u8>,
    encrypted: bool,
    has_been_decrypted: bool,
    rev_history: Vec<String>,
}

/// The mathematical content of a `Document`.
pub ghost struct DocView<T> {
    pub label: Seq<char>,
    pub uuid: Seq<char>,
    pub rev: Seq<char>,
    pub data: T,
    pub seq: int,
    pub encrypted_data: Seq<u8>,
    pub encrypted: bool,
    pub has_been_decrypted: bool,
    pub rev_history: Seq<Seq<char>>,
}

impl<T> DocView<T> {
    /// The revision chain: the history followed by the current revision.
    pub open spec fn chain(self) -> Seq<Seq<char>> {
        self.rev_history.push(self.rev)
    }

    /// A document that was never stored.
    pub open spec fn fresh(label: Seq<char>, uuid: Seq<char>, data: T) -> DocView<T> {
        DocView {
            label,
            uuid,
            rev: Seq::empty(),
            data,
            seq: 0,
            encrypted_data: Seq::empty(),
            encrypted: false,
            has_been_decrypted: false,
            rev_history: Seq::empty(),
        }
    }

    /// The document after one step of the store protocol: the counter goes
    /// up, the revision it had (if it was stored before) joins the history,
    /// and `new_rev` becomes its revision.
    pub open spec fn advanced(self, new_rev: Seq<char>) -> DocView<T> {
        DocView {
            seq: self.seq + 1,
            rev_history: if self.seq + 1 > 1 {
                self.rev_history.push(self.rev)
            } else {
                self.rev_history
            },
            rev: new_rev,
            ..self
        }
    }

    /// The document as a cleartext record: no ciphertext, not encrypted.
    pub open spec fn cleartext(self) -> DocView<T> {
        DocView { encrypted: false, encrypted_data: Seq::empty(), ..self }
    }

    /// The document as an encrypted record holding `sealed`.
    pub open spec fn sealed_with(self, sealed: Seq<u8>) -> DocView<T> {
        DocView { encrypted: true, encrypted_data: sealed, has_been_decrypted: false, ..self }
    }

    /// The file image of the document when its payload is written as `data`.
    pub open spec fn image(self, data: Seq<u8>) -> ImageView {
        ImageView {
            label: self.label,
            uuid: self.uuid,
            rev: self.rev,
            data,
            seq: self.seq,
            encrypted_data: self.encrypted_data,
            encrypted: self.encrypted,
            has_been_decrypted: self.has_been_decrypted,
            rev_history: self.rev_history,
        }
    }

    /// Whether the payload may be read: the record is cleartext, or it was
    /// decrypted.
    pub open spec fn readable(self) -> bool {
        !self.encrypted || self.has_been_decrypted
    }
}

/// The document that a file image describes, with payload `data`.
pub open spec fn doc_of<T>(image: ImageView, data: T) -> DocView<T> {
    DocView {
        label: image.label,
        uuid: image.uuid,
        rev: image.rev,
        data,
        seq: image.seq,
        encrypted_data: image.encrypted_data,
        encrypted: image.encrypted,
        has_been_decrypted: image.has_been_decrypted,
        rev_history: image.rev_history,
    }
}

/// Whether writing document `d` would conflict with the file in its place.
pub open spec fn store_conflicts<T>(root: RootView, d: DocView<T>) -> bool {
    root.files.contains_key((d.label, d.uuid)) && diverges(
        root.files[(d.label, d.uuid)].chain(),
        d.chain(),
    )
}

pub open spec fn conflict_message() -> Seq<char> {
    "Document update conflict"@
}

pub open spec fn stale_message() -> Seq<char> {
    "Document revision is not new"@
}

pub open spec fn serialize_failed_message(why: Seq<char>) -> Seq<char> {
    "Failed to serialize document: "@ + why
}

pub open spec fn exhausted_message() -> Seq<char> {
    "Document sequence counter is exhausted"@
}

pub open spec fn sealed_message() -> Seq<char> {
    "Failed to store.  Document has been encrypted.  Try store_encrypted instead."@
}

pub open spec fn unreadable_message() -> Seq<char> {
    "Document is encrypted.  Please use decrypt_load in order to read this document"@
}

pub open spec fn load_sealed_message() -> Seq<char> {
    "Load failed.  Data is encrypted"@
}

pub open spec fn not_found_message(uuid: Seq<char>) -> Seq<char> {
    "Document not found: "@ + uuid
}

pub open spec fn parse_failed_message(why: Seq<char>) -> Seq<char> {
    "Failed to parse doc file: "@ + why
}

pub open spec fn decrypted_parse_failed_message(why: Seq<char>) -> Seq<char> {
    "Failed to parse decrypted data: "@ + why
}

pub open spec fn remove_failed_message(uuid: Seq<char>) -> Seq<char> {
    "Failed to remove doc: "@ + uuid
}

pub open spec fn no_directory_message(label: Seq<char>) -> Seq<char> {
    "Failed to find ledger uuids: "@ + label
}

/// The path of the directory of collection `label` under the root at `root`.
pub open spec fn data_dir(root: Seq<char>, label: Seq<char>) -> Seq<char> {
    root + "/"@ + label
}

/// What opening a file image gives when decoding its payload gave
/// `decoded`: the document, or the reason why there is none.
pub open spec fn open_outcome<T>(
    image: ImageView,
    decoded: Result<T, String>,
    r: Result<Document<T>, LocalLedgerError>,
) -> bool {
    match decoded {
        Err(why) => fails_with(r, LocalLedgerErrorType::Default, parse_failed_message(why@)),
        Ok(data) => if image.encrypted {
            fails_with(r, LocalLedgerErrorType::Default, load_sealed_message())
        } else {
            r matches Ok(d) && d@ == doc_of(image, data)
        },
    }
}

/// What loading gives for the file found in the document's place: a
/// missing file is an error, and a file that is there is opened with
/// whatever decoding its payload gave.
pub open spec fn load_outcome<T: Payload>(
    file: Option<ImageView>,
    uuid: Seq<char>,
    r: Result<Document<T>, LocalLedgerError>,
) -> bool {
    match file {
        None => fails_with(r, LocalLedgerErrorType::Default, not_found_message(uuid)),
        Some(image) => opened_by_decoding(image, r),
    }
}

/// The file image was opened with what decoding its payload gave.
pub open spec fn opened_by_decoding<T: Payload>(
    image: ImageView,
    r: Result<Document<T>, LocalLedgerError>,
) -> bool {
    exists|decoded: Result<T, String>|
        decoding_gave(image.data, decoded) && #[trigger] open_outcome(image, decoded, r)
}

/// The encrypted file image was opened with what decoding `plain` gave.
pub open spec fn unsealed_by_decoding<T: Payload>(
    image: ImageView,
    plain: Seq<u8>,
    r: Result<Document<T>, LocalLedgerError>,
) -> bool {
    exists|decoded: Result<T, String>|
        decoding_gave(plain, decoded) && #[trigger] unseal_outcome(image, decoded, r)
}

/// What a load that only tells whether it succeeded gives: the document
/// that loading gives, and nothing where loading fails.
pub open spec fn try_load_outcome<T: Payload>(
    file: Option<ImageView>,
    uuid: Seq<char>,
    r: Option<Document<T>>,
) -> bool {
    exists|loaded: Result<Document<T>, LocalLedgerError>| #[trigger]
        load_outcome(file, uuid, loaded) && r == match loaded {
            Ok(d) => Some(d),
            Err(_) => None,
        }
}

/// What opening an encrypted file image gives when decoding the decrypted
/// bytes gave `decoded`.
pub open spec fn unseal_outcome<T>(
    image: ImageView,
    decoded: Result<T, String>,
    r: Result<Document<T>, LocalLedgerError>,
) -> bool {
    match decoded {
        Err(why) => fails_with(
            r,
            LocalLedgerErrorType::Default,
            decrypted_parse_failed_message(why@),
        ),
        Ok(data) => r matches Ok(d) && d@ == (DocView {
            has_been_decrypted: true,
            ..doc_of(image, data)
        }),
    }
}

/// What the store protocol does to a document `before` and a tree `root0`
/// when the fresh revision is `new_rev` and the payload is written as
/// `data`: the document `after`, the tree `root1` and the result `r`.
pub open spec fn store_outcome<T>(
    before: DocView<T>,
    root0: RootView,
    new_rev: Seq<char>,
    data: Seq<u8>,
    after: DocView<T>,
    root1: RootView,
    r: Result<(), LocalLedgerError>,
) -> bool {
    if before.seq >= i64::MAX {
        &&& after == before
        &&& root1 == root0
        &&& fails_with(r, LocalLedgerErrorType::Default, exhausted_message())
    } else if store_conflicts(root0, before.advanced(new_rev)) {
        &&& after == before.advanced(new_rev)
        &&& root1 == root0.with_dir(before.label)
        &&& fails_with(r, LocalLedgerErrorType::Confict, conflict_message())
    } else {
        &&& after == before.advanced(new_rev)
        &&& root1 == root0.written(before.label, before.uuid, after.image(data))
        &&& r is Ok
    }
}

/// What becomes of the identifier `drawn` as the revision for a document
/// with chain `chain`: it is the revision unless the chain holds it, in
/// which case it is refused as not new.
pub open spec fn revision_outcome(
    chain: Seq<Seq<char>>,
    drawn: Seq<char>,
    r: Result<String, LocalLedgerError>,
) -> bool {
    if chain.contains(drawn) {
        fails_with(r, LocalLedgerErrorType::Default, stale_message())
    } else {
        r matches Ok(rev) && rev@ == drawn
    }
}

/// What drawing a revision for a document with chain `chain` gives: what
/// becomes of some identifier that was drawn.
pub open spec fn draw_outcome(chain: Seq<Seq<char>>, r: Result<String, LocalLedgerError>) -> bool {
    exists|drawn: Seq<char>| is_id(drawn) && #[trigger] revision_outcome(chain, drawn, r)
}

/// A revision that was drawn is an identifier that the chain does not
/// hold; and for a document that was never stored, drawing does not fail.
pub proof fn law_drawn_revision_is_new(chain: Seq<Seq<char>>, r: Result<String, LocalLedgerError>)
    requires
        draw_outcome(chain, r),
    ensures
        r matches Ok(rev) ==> is_id(rev@) && !chain.contains(rev@),
        r matches Err(e) ==> e.is(LocalLedgerErrorType::Default, stale_message()),
        chain == seq![Seq::<char>::empty()] ==> r is Ok,
{
    let drawn = choose|drawn: Seq<char>| is_id(drawn) && #[trigger] revision_outcome(chain, drawn, r);
    if chain == seq![Seq::<char>::empty()] && chain.contains(drawn) {
        let i = choose|i: int| 0 <= i < chain.len() && chain[i] == drawn;
        assert(drawn.len() == 0);
    }
}

/// What a cleartext store does when encoding the payload gave `encoded`
/// and drawing the revision gave `drawn`: a failure of either is the
/// store's failure and changes nothing; else the store protocol runs on
/// the cleartext record with the revision and the encoding.
pub open spec fn cleartext_store_outcome<T>(
    before: DocView<T>,
    root0: RootView,
    encoded: Result<Vec<u8>, String>,
    drawn: Result<String, LocalLedgerError>,
    after: DocView<T>,
    root1: RootView,
    r: Result<(), LocalLedgerError>,
) -> bool {
    match encoded {
        Err(why) => after == before && root1 == root0 && fails_with(
            r,
            LocalLedgerErrorType::Default,
            why@,
        ),
        Ok(data) => match drawn {
            Err(e) => after == before && root1 == root0 && r == Err::<(), LocalLedgerError>(e),
            Ok(rev) => store_outcome(before.cleartext(), root0, rev@, data@, after, root1, r),
        },
    }
}

/// What an encrypted store does when encoding the default payload gave
/// `blank`, encoding the payload gave `encoded`, encrypting the encoding
/// gave `sealed` and drawing the revision gave `drawn`: a failure of any
/// is the store's failure and changes nothing; else the store protocol
/// runs on the record sealed with the ciphertext, with the default
/// payload's encoding written in place of the payload.
pub open spec fn sealed_store_outcome<T>(
    before: DocView<T>,
    root0: RootView,
    blank: Result<Vec<u8>, String>,
    encoded: Result<Vec<u8>, String>,
    sealed: Result<Vec<u8>, LocalLedgerError>,
    drawn: Result<String, LocalLedgerError>,
    after: DocView<T>,
    root1: RootView,
    r: Result<(), LocalLedgerError>,
) -> bool {
    match (blank, encoded, sealed, drawn) {
        (Err(why), _, _, _) => after == before && root1 == root0 && fails_with(
            r,
            LocalLedgerErrorType::Default,
            why@,
        ),
        (Ok(_), Err(why), _, _) => after == before && root1 == root0 && fails_with(
            r,
            LocalLedgerErrorType::Default,
            serialize_failed_message(why@),
        ),
        (Ok(_), Ok(_), Err(e), _) => after == before && root1 == root0 && r == Err::<
            (),
            LocalLedgerError,
        >(e),
        (Ok(_), Ok(_), Ok(_), Err(e)) => after == before && root1 == root0 && r == Err::<
            (),
            LocalLedgerError,
        >(e),
        (Ok(filler), Ok(_), Ok(cipher), Ok(rev)) => store_outcome(
            before.sealed_with(cipher@),
            root0,
            rev@,
            filler@,
            after,
            root1,
            r,
        ),
    }
}

/// The document after it was stored once for each of `revs`, in order.
pub open spec fn stored_times<T>(doc: DocView<T>, revs: Seq<Seq<char>>) -> DocView<T>
    decreases revs.len(),
{
    if revs.len() == 0 {
        doc
    } else {
        stored_times(doc, revs.drop_last()).advanced(revs.last())
    }
}

/// A document stored `n` times has counted `n` stores, holds the last
/// revision assigned, and has the `n - 1` revisions before it for its
/// history.
pub proof fn law_store_count<T>(label: Seq<char>, uuid: Seq<char>, data: T, revs: Seq<Seq<char>>)
    ensures
        stored_times(DocView::fresh(label, uuid, data), revs).seq == revs.len(),
        revs.len() > 0 ==> stored_times(DocView::fresh(label, uuid, data), revs).rev
            == revs.last(),
        revs.len() > 0 ==> stored_times(DocView::fresh(label, uuid, data), revs).rev_history
            == revs.drop_last(),
        revs.len() == 0 ==> stored_times(DocView::fresh(label, uuid, data), revs).rev_history
            == Seq::<Seq<char>>::empty(),
    decreases revs.len(),
{
    if revs.len() > 0 {
        let rest = revs.drop_last();
        law_store_count(label, uuid, data, rest);
        let before = stored_times(DocView::fresh(label, uuid, data), rest);
        if rest.len() > 0 {
            assert(rest.drop_last().push(rest.last()) =~= rest);
        }
    }
}

/// Whether two documents are the same record: they agree in their place,
/// their counter and their chain, whatever payload they hold and however
/// it is kept.
pub open spec fn same_record<T>(a: DocView<T>, b: DocView<T>) -> bool {
    a.label == b.label && a.uuid == b.uuid && a.rev == b.rev && a.seq == b.seq && a.rev_history
        == b.rev_history
}

/// The store protocol ran on `before` with a revision that was new to it,
/// and succeeded.
pub open spec fn stored_anew<T>(
    before: DocView<T>,
    root0: RootView,
    new_rev: Seq<char>,
    data: Seq<u8>,
    after: DocView<T>,
    root1: RootView,
) -> bool {
    !before.chain().contains(new_rev) && store_outcome(
        before,
        root0,
        new_rev,
        data,
        after,
        root1,
        Ok::<(), LocalLedgerError>(()),
    )
}

/// A run of stores of one record, each without error: store `i` takes the
/// document `befores[i]` and the tree `roots[i]` to `afters[i]` and
/// `roots[i + 1]`, under the revision `revs[i]` and with the payload
/// written as `datas[i]`. The record was never stored before the first,
/// and between two stores only its payload and the way it is kept change.
pub open spec fn store_run<T>(
    befores: Seq<DocView<T>>,
    afters: Seq<DocView<T>>,
    roots: Seq<RootView>,
    revs: Seq<Seq<char>>,
    datas: Seq<Seq<u8>>,
) -> bool {
    let n = revs.len();
    &&& n >= 1
    &&& befores.len() == n
    &&& afters.len() == n
    &&& roots.len() == n + 1
    &&& datas.len() == n
    &&& befores[0].seq == 0
    &&& befores[0].rev_history.len() == 0
    &&& forall|i: int|
        0 <= i < n ==> stored_anew(
            #[trigger] befores[i],
            roots[i],
            revs[i],
            datas[i],
            afters[i],
            roots[i + 1],
        )
    &&& forall|i: int| 0 <= i < n - 1 ==> same_record(#[trigger] afters[i], befores[i + 1])
}

proof fn lemma_store_run<T>(
    befores: Seq<DocView<T>>,
    afters: Seq<DocView<T>>,
    roots: Seq<RootView>,
    revs: Seq<Seq<char>>,
    datas: Seq<Seq<u8>>,
    k: int,
)
    requires
        store_run(befores, afters, roots, revs, datas),
        1 <= k <= revs.len(),
    ensures
        afters[k - 1].label == befores[0].label,
        afters[k - 1].uuid == befores[0].uuid,
        afters[k - 1].seq == k,
        afters[k - 1].rev == revs[k - 1],
        afters[k - 1].rev_history == revs.subrange(0, k - 1),
        revs.subrange(0, k).no_duplicates(),
        roots[k].file(befores[0].label, befores[0].uuid) == Some(
            afters[k - 1].image(datas[k - 1]),
        ),
    decreases k,
{
    let before = befores[k - 1];
    assert(stored_anew(before, roots[k - 1], revs[k - 1], datas[k - 1], afters[k - 1], roots[k]));
    if k == 1 {
        assert(afters[0].rev_history =~= revs.subrange(0, 0));
        assert(revs.subrange(0, 1) =~= seq![revs[0]]);
    } else {
        lemma_store_run(befores, afters, roots, revs, datas, k - 1);
        assert(same_record(afters[k - 2], befores[k - 1]));
        let past = revs.subrange(0, k - 1);
        assert(before.chain() =~= past);
        assert(afters[k - 1].rev_history =~= past);
        let all = revs.subrange(0, k);
        assert(all =~= past.push(revs[k - 1]));
        assert forall|i: int, j: int| 0 <= i < all.len() && 0 <= j < all.len() && i
            != j implies all[i] != all[j] by {
            if i < past.len() && j < past.len() {
                assert(past[i] != past[j]);
            } else if i < past.len() {
                assert(past.contains(past[i]));
            } else {
                assert(past.contains(past[j]));
            }
        }
    }
}

/// After any number of stores of a record without error, the document has
/// counted the stores, holds the last revision assigned and has the
/// revisions before it, oldest first, for its history; no revision was
/// assigned twice; and the file in the document's place is the image of
/// the document as the last store left it, so that loading it gives the
/// counter, the revision and the history back.
pub proof fn law_stores_are_reloaded<T>(
    befores: Seq<DocView<T>>,
    afters: Seq<DocView<T>>,
    roots: Seq<RootView>,
    revs: Seq<Seq<char>>,
    datas: Seq<Seq<u8>>,
    decoded: T,
    loaded: Result<Document<T>, LocalLedgerError>,
)
    requires
        store_run(befores, afters, roots, revs, datas),
        !afters.last().encrypted,
        roots.last().file(befores[0].label, befores[0].uuid) matches Some(image) && open_outcome(
            image,
            Ok::<T, String>(decoded),
            loaded,
        ),
    ensures
        afters.last().seq == revs.len(),
        afters.last().rev == revs.last(),
        afters.last().rev_history == revs.drop_last(),
        revs.no_duplicates(),
        loaded matches Ok(d) && d@.seq == revs.len() && d@.rev == revs.last() && d@.rev_history
            == revs.drop_last() && d@.data == decoded,
{
    let n = revs.len() as int;
    lemma_store_run(befores, afters, roots, revs, datas, n);
    assert(revs.subrange(0, n) =~= revs);
    assert(revs.subrange(0, n - 1) =~= revs.drop_last());
}

/// A store that succeeds leaves in the document's place exactly the image
/// of the document as it is after the store, with the payload as it was
/// given to be written; loading it gives the document's counter, revision
/// and history back.
pub proof fn law_store_is_reloaded<T>(
    before: DocView<T>,
    root0: RootView,
    new_rev: Seq<char>,
    data: Seq<u8>,
    after: DocView<T>,
    root1: RootView,
    r: Result<(), LocalLedgerError>,
)
    requires
        store_outcome(before, root0, new_rev, data, after, root1, r),
        r is Ok,
    ensures
        root1.file(after.label, after.uuid) == Some(after.image(data)),
        after == before.advanced(new_rev),
        doc_of(after.image(data), after.data) == after,
        after.image(data).data == data,
{
}

/// An encrypted store writes the ciphertext and, in place of the payload,
/// what it was given to write there: the payload of the document never
/// reaches the file, and the document counts as not decrypted.
pub proof fn law_sealed_store_hides_payload<T>(
    before: DocView<T>,
    root0: RootView,
    sealed: Seq<u8>,
    new_rev: Seq<char>,
    blank: Seq<u8>,
    after: DocView<T>,
    root1: RootView,
    r: Result<(), LocalLedgerError>,
)
    requires
        store_outcome(before.sealed_with(sealed), root0, new_rev, blank, after, root1, r),
        r is Ok,
    ensures
        root1.file(before.label, before.uuid) matches Some(image) && image.data == blank
            && image.encrypted && image.encrypted_data == sealed && !image.has_been_decrypted,
        !after.has_been_decrypted,
        after.data == before.data,
{
}

/// An encrypted store for which the encodings, the ciphertext and the
/// revision came, of a document whose counter is not exhausted and whose
/// chain the file in place allows, succeeds; the file then holds the
/// encoding of the default payload where the payload would stand, the mark
/// that it is encrypted, and the ciphertext.
pub proof fn law_sealed_store_writes_default<T>(
    before: DocView<T>,
    root0: RootView,
    filler: Vec<u8>,
    plain: Vec<u8>,
    cipher: Vec<u8>,
    rev: String,
    after: DocView<T>,
    root1: RootView,
    r: Result<(), LocalLedgerError>,
)
    requires
        sealed_store_outcome(
            before,
            root0,
            Ok::<Vec<u8>, String>(filler),
            Ok::<Vec<u8>, String>(plain),
            Ok::<Vec<u8>, LocalLedgerError>(cipher),
            Ok::<String, LocalLedgerError>(rev),
            after,
            root1,
            r,
        ),
        before.seq < i64::MAX,
        !store_conflicts(root0, before.sealed_with(cipher@).advanced(rev@)),
    ensures
        r is Ok,
        root1.file(before.label, before.uuid) matches Some(image) && image.data == filler@
            && image.encrypted && image.encrypted_data == cipher@,
{
}

/// Two documents that differ in their payload alone, stored encrypted
/// with the same ciphertext, leave files that are equal in every field but
/// the revision: nothing of the payload reaches the file.
pub proof fn law_sealed_file_ignores_payload<T>(
    first: DocView<T>,
    second: DocView<T>,
    root0: RootView,
    filler: Vec<u8>,
    plain1: Vec<u8>,
    plain2: Vec<u8>,
    cipher: Vec<u8>,
    rev1: String,
    rev2: String,
    after1: DocView<T>,
    root1: RootView,
    after2: DocView<T>,
    root2: RootView,
)
    requires
        second == (DocView { data: second.data, ..first }),
        sealed_store_outcome(
            first,
            root0,
            Ok::<Vec<u8>, String>(filler),
            Ok::<Vec<u8>, String>(plain1),
            Ok::<Vec<u8>, LocalLedgerError>(cipher),
            Ok::<String, LocalLedgerError>(rev1),
            after1,
            root1,
            Ok::<(), LocalLedgerError>(()),
        ),
        sealed_store_outcome(
            second,
            root0,
            Ok::<Vec<u8>, String>(filler),
            Ok::<Vec<u8>, String>(plain2),
            Ok::<Vec<u8>, LocalLedgerError>(cipher),
            Ok::<String, LocalLedgerError>(rev2),
            after2,
            root2,
            Ok::<(), LocalLedgerError>(()),
        ),
    ensures
        root1.file(first.label, first.uuid) is Some,
        root2.file(first.label, first.uuid) is Some,
        (ImageView { rev: rev2@, ..root1.file(first.label, first.uuid)->0 }) == root2.file(
            first.label,
            first.uuid,
        )->0,
{
}

/// A store is refused as a conflict exactly when there is a file in the
/// document's place whose chain the document's chain does not extend: when
/// the document's chain is shorter, or differs from the file's at some
/// index of the file's chain.
pub proof fn law_store_rejects_divergence<T>(
    before: DocView<T>,
    root0: RootView,
    new_rev: Seq<char>,
    data: Seq<u8>,
    after: DocView<T>,
    root1: RootView,
    r: Result<(), LocalLedgerError>,
)
    requires
        store_outcome(before, root0, new_rev, data, after, root1, r),
        before.seq < i64::MAX,
    ensures
        fails_as(r, LocalLedgerErrorType::Confict) <==> (root0.files.contains_key(
            (before.label, before.uuid),
        ) && (after.chain().len() < root0.files[(before.label, before.uuid)].chain().len()
            || exists|i: int|
            0 <= i < root0.files[(before.label, before.uuid)].chain().len() && root0.files[(
                before.label,
                before.uuid,
            )].chain()[i] != after.chain()[i])),
        fails_as(r, LocalLedgerErrorType::Confict) ==> root1.files == root0.files,
{
    if root0.files.contains_key((before.label, before.uuid)) {
        crate::revision::law_divergence_by_index(
            root0.files[(before.label, before.uuid)].chain(),
            before.advanced(new_rev).chain(),
        );
    }
}

/// After a store that succeeded, the next store of the same document is
/// no conflict.
pub proof fn law_next_store_extends<T>(
    before: DocView<T>,
    root0: RootView,
    new_rev: Seq<char>,
    data: Seq<u8>,
    after: DocView<T>,
    root1: RootView,
    r: Result<(), LocalLedgerError>,
    next_rev: Seq<char>,
)
    requires
        store_outcome(before, root0, new_rev, data, after, root1, r),
        r is Ok,
        before.seq >= 0,
    ensures
        !store_conflicts(root1, after.advanced(next_rev)),
{
    let on_disk = after.image(data).chain();
    let next = after.advanced(next_rev).chain();
    assert(on_disk =~= next.subrange(0, on_disk.len() as int));
}

impl<T> View for Document<T> {
    type V = DocView<T>;

    closed spec fn view(&self) -> DocView<T> {
        DocView {
            label: self.label@,
            uuid: self.uuid@,
            rev: self.rev@,
            data: self.data,
            seq: self.seq as int,
            encrypted_data: self.encrypted_data@,
            encrypted: self.encrypted,
            has_been_decrypted: self.has_been_decrypted,
            rev_history: texts(self.rev_history@),
        }
    }
}

impl<T: Payload> Document<T> {
    /// A document of collection `label` with a fresh uuid, never stored.
    pub fn new(label: &str) -> (d: Self)
        ensures
            is_id(d@.uuid),
            d@ == DocView::fresh(label@, d@.uuid, d@.data),
            call_ensures(T::blank, (), d@.data),
    {
        let d = Document {
            uuid: generate_id(),
            rev: String::new(),
            data: T::blank(),
            seq: 0i64,
            label: label.to_owned(),
            encrypted_data: Vec::new(),
            encrypted: false,
            has_been_decrypted: false,
            rev_history: Vec::new(),
        };
        assert(texts(d.rev_history@) =~= Seq::empty());
        d
    }

    /// A document of collection `label` with the given uuid, never stored.
    pub fn new_alt(label: &str, uuid: &str) -> (d: Self)
        ensures
            d@ == DocView::fresh(label@, uuid@, d@.data),
            call_ensures(T::blank, (), d@.data),
    {
        let d = Document {
            uuid: uuid.to_owned(),
            rev: String::new(),
            data: T::blank(),
            seq: 0i64,
            label: label.to_owned(),
            encrypted_data: Vec::new(),
            encrypted: false,
            has_been_decrypted: false,
            rev_history: Vec::new(),
        };
        assert(texts(d.rev_history@) =~= Seq::empty());
        d
    }

    /// The document that `image` describes, with payload `data`.
    pub fn from_image(image: DocImage, data: T) -> (d: Self)
        ensures
            d@ == doc_of(image@, data),
    {
        Document {
            label: image.label,
            uuid: image.uuid,
            rev: image.rev,
            data,
            seq: image.seq,
            encrypted_data: image.encrypted_data,
            encrypted: image.encrypted,
            has_been_decrypted: image.has_been_decrypted,
            rev_history: image.rev_history,
        }
    }

    /// The file image of the document with its payload written as `data`.
    pub fn to_image(&self, data: Vec<u8>) -> (image: DocImage)
        ensures
            image@ == self@.image(data@),
    {
        DocImage {
            label: self.label.clone(),
            uuid: self.uuid.clone(),
            rev: self.rev.clone(),
            data,
            seq: self.seq,
            encrypted_data: copy_bytes(&self.encrypted_data),
            encrypted: self.encrypted,
            has_been_decrypted: self.has_been_decrypted,
            rev_history: copy_strings(&self.rev_history),
        }
    }

    /// Replaces the payload in memory. Nothing is written.
    pub fn update(&mut self, updates: T) -> (r: &mut Self)
        ensures
            r@ == (DocView { data: updates, ..old(self)@ }),
            *final(r) == *final(self),
    {
        self.data = updates;
        self
    }

    /// The payload, unless the record is encrypted and was not decrypted.
    pub fn read_data(&self) -> (r: Result<&T, LocalLedgerError>)
        ensures
            self@.readable() ==> r == Ok::<&T, LocalLedgerError>(&self@.data),
            !self@.readable() ==> fails_with(
                r,
                LocalLedgerErrorType::Default,
                unreadable_message(),
            ),
    {
        if !self.encrypted {
            return Ok(&self.data);
        }
        if self.encrypted && self.has_been_decrypted {
            return Ok(&self.data);
        }
        Err(
            LocalLedgerError::new(
                "Document is encrypted.  Please use decrypt_load in order to read this document",
            ),
        )
    }

    /// The payload, for changing in place, unless the record is encrypted
    /// and was not decrypted.
    pub fn read_mut(&mut self) -> (r: Result<&mut T, LocalLedgerError>)
        ensures
            old(self)@.readable() ==> (r matches Ok(data) && *data == old(self)@.data
                && final(self)@ == (DocView { data: *final(data), ..old(self)@ })),
            !old(self)@.readable() ==> fails_with(
                r,
                LocalLedgerErrorType::Default,
                unreadable_message(),
            ) && final(self)@ == old(self)@,
    {
        if !self.encrypted || self.has_been_decrypted {
            return Ok(&mut self.data);
        }
        Err(
            LocalLedgerError::new(
                "Document is encrypted.  Please use decrypt_load in order to read this document",
            ),
        )
    }

    /// The payload as it is in memory, readable or not.
    pub fn data_in_memory(&self) -> (r: &T)
        ensures
            *r == self@.data,
    {
        &self.data
    }

    /// The uuid.
    pub fn read_uuid(&self) -> (u: &str)
        ensures
            u@ == self@.uuid,
    {
        self.uuid.as_str()
    }

    /// Gives the document another uuid.
    pub fn append_uuid(&mut self, uuid: &str)
        ensures
            final(self)@ == (DocView { uuid: uuid@, ..old(self)@ }),
    {
        self.uuid = uuid.to_owned();
    }

    /// Moves the document to another collection.
    pub fn relabel(&mut self, label: &str)
        ensures
            final(self)@ == (DocView { label: label@, ..old(self)@ }),
    {
        self.label = label.to_owned();
    }

    /// A copy of the uuid.
    pub fn get_uuid(&self) -> (u: String)
        ensures
            u@ == self@.uuid,
    {
        self.uuid.clone()
    }

    /// Whether the payload in memory came from a decryption.
    pub fn has_been_decrypted(&self) -> (b: bool)
        ensures
            b == self@.has_been_decrypted,
    {
        self.has_been_decrypted
    }

    /// The current revision; empty before the first store.
    pub fn rev(&self) -> (r: &str)
        ensures
            r@ == self@.rev,
    {
        self.rev.as_str()
    }

    /// The collection the document belongs to.
    pub fn label(&self) -> (l: &str)
        ensures
            l@ == self@.label,
    {
        self.label.as_str()
    }

    /// The store counter: how many times the store protocol has run.
    pub fn seq(&self) -> (n: i64)
        ensures
            n == self@.seq,
    {
        self.seq
    }

    /// The past revisions, oldest first.
    pub fn rev_history(&self) -> (h: &Vec<String>)
        ensures
            texts(h@) == self@.rev_history,
    {
        &self.rev_history
    }

    /// Runs the conflict policy between a local document and an incoming
    /// image of it: whether the incoming chain fails to extend the local one.
    pub fn check_for_conflict(local: &Self, incoming: &DocImage) -> (conflict: bool)
        ensures
            conflict == diverges(local@.chain(), incoming@.chain()),
    {
        check_for_conflict(&local.rev_history, &local.rev, &incoming.rev_history, &incoming.rev)
    }

    /// The store protocol with the fresh revision and the written form of
    /// the payload given: advance the chain, check it against the file in
    /// place, and write.
    pub fn store_as(&mut self, root: &mut StoreRoot, new_rev: String, data: Vec<u8>) -> (r: Result<
        (),
        LocalLedgerError,
    >)
        ensures
            store_outcome(old(self)@, old(root)@, new_rev@, data@, final(self)@, final(root)@, r),
    {
        if self.seq >= i64::MAX {
            return Err(LocalLedgerError::new("Document sequence counter is exhausted"));
        }
        self.seq = self.seq + 1;
        if self.seq > 1 {
            let prev_rev = self.rev.clone();
            proof {
                lemma_texts_push(self.rev_history@, prev_rev);
            }
            self.rev_history.push(prev_rev);
        }
        self.rev = new_rev;
        assert(self@ == old(self)@.advanced(new_rev@));
        root.create_dir(self.label.as_str());
        match root.read_file(self.label.as_str(), self.uuid.as_str()) {
            Some(current) => {
                if check_for_conflict(
                    &current.rev_history,
                    &current.rev,
                    &self.rev_history,
                    &self.rev,
                ) {
                    return Err(LocalLedgerError::conflict("Document update conflict"));
                }
            },
            None => {},
        }
        let image = self.to_image(data);
        root.write_file(self.label.as_str(), self.uuid.as_str(), image);
        assert(final(root)@ == old(root)@.written(self@.label, self@.uuid, self@.image(data@))) by {
            assert(old(root)@.dirs.insert(self@.label).insert(self@.label) =~= old(
                root,
            )@.dirs.insert(self@.label));
        }
        Ok(())
    }

    /// Stores the document as an encrypted record holding `sealed`, with
    /// `blank` written in place of the payload and `new_rev` as the fresh
    /// revision.
    pub fn store_sealed(
        &mut self,
        root: &mut StoreRoot,
        sealed: Vec<u8>,
        blank: Vec<u8>,
        new_rev: String,
    ) -> (r: Result<(), LocalLedgerError>)
        ensures
            store_outcome(
                old(self)@.sealed_with(sealed@),
                old(root)@,
                new_rev@,
                blank@,
                final(self)@,
                final(root)@,
                r,
            ),
    {
        self.encrypted_data = sealed;
        self.encrypted = true;
        self.has_been_decrypted = false;
        self.store_as(root, new_rev, blank)
    }

    /// Whether the document's chain holds the revision `rev`.
    pub fn chain_holds(&self, rev: &String) -> (b: bool)
        ensures
            b == self@.chain().contains(rev@),
    {
        let ghost chain = self@.chain();
        let mut i: usize = 0;
        while i < self.rev_history.len()
            invariant
                i <= self.rev_history.len(),
                chain == self@.chain(),
                forall|j: int| 0 <= j < i ==> chain[j] != rev@,
            decreases self.rev_history.len() - i,
        {
            if self.rev_history[i] == *rev {
                assert(chain[i as int] == rev@);
                return true;
            }
            i = i + 1;
        }
        let b = self.rev == *rev;
        proof {
            if b {
                assert(chain[chain.len() - 1] == rev@);
            }
        }
        b
    }

    /// Takes the identifier `drawn` for the revision of the next store,
    /// unless the document's chain holds it.
    pub fn accept_revision(&self, drawn: String) -> (r: Result<String, LocalLedgerError>)
        ensures
            revision_outcome(self@.chain(), drawn@, r),
    {
        if self.chain_holds(&drawn) {
            return Err(LocalLedgerError::new("Document revision is not new"));
        }
        Ok(drawn)
    }

    /// Draws a revision for the next store: an identifier that the
    /// document's chain does not hold. An identifier that the chain holds
    /// is refused.
    pub fn draw_revision(&self) -> (r: Result<String, LocalLedgerError>)
        ensures
            draw_outcome(self@.chain(), r),
    {
        let drawn = generate_id();
        let r = self.accept_revision(drawn);
        assert(is_id(drawn@) && revision_outcome(self@.chain(), drawn@, r));
        r
    }

    /// Persists the document as cleartext under a fresh revision.
    ///
    /// Refused while the record is encrypted and was not decrypted. Fails
    /// without any change when the payload has no encoding. Otherwise the
    /// store protocol runs on the cleartext record, with the payload
    /// written as its encoding.
    pub fn store(&mut self, root: &mut StoreRoot) -> (r: Result<(), LocalLedgerError>)
        ensures
            !old(self)@.readable() ==> fails_with(
                r,
                LocalLedgerErrorType::Default,
                sealed_message(),
            ) && final(self)@ == old(self)@ && final(root)@ == old(root)@,
            old(self)@.readable() ==> exists|
                encoded: Result<Vec<u8>, String>,
                drawn: Result<String, LocalLedgerError>,
            |
                encoding_gave(old(self)@.data, encoded) && draw_outcome(
                    old(self)@.chain(),
                    drawn,
                ) && #[trigger] cleartext_store_outcome(
                    old(self)@,
                    old(root)@,
                    encoded,
                    drawn,
                    final(self)@,
                    final(root)@,
                    r,
                ),
    {
        if self.encrypted && !self.has_been_decrypted {
            return Err(
                LocalLedgerError::new(
                    "Failed to store.  Document has been encrypted.  Try store_encrypted instead.",
                ),
            );
        }
        let encoded = self.data.encode();
        let drawn = self.draw_revision();
        let ghost encoded_as = encoded;
        let ghost drawn_as = drawn;
        let r = match encoded {
            Err(why) => Err(LocalLedgerError::new(why.as_str())),
            Ok(data) => match drawn {
                Err(e) => Err(e),
                Ok(new_rev) => {
                    self.encrypted = false;
                    self.encrypted_data = Vec::new();
                    self.store_as(root, new_rev, data)
                },
            },
        };
        assert(cleartext_store_outcome(
            old(self)@,
            old(root)@,
            encoded_as,
            drawn_as,
            self@,
            root@,
            r,
        ));
        r
    }

    /// Persists the document with its payload encrypted: the payload is
    /// encoded, the bytes go through `encrypt`, and the record is stored
    /// holding what came back, with the default payload written in place of
    /// the cleartext.
    ///
    /// Fails without any change when an encoding or `encrypt` fails.
    pub fn store_encrypted<F: Fn(Vec<u8>) -> Result<Vec<u8>, LocalLedgerError>>(
        &mut self,
        root: &mut StoreRoot,
        encrypt: F,
    ) -> (r: Result<(), LocalLedgerError>)
        requires
            forall|plain: Vec<u8>| encrypt.requires((plain,)),
        ensures
            exists|
                blank: Result<Vec<u8>, String>,
                encoded: Result<Vec<u8>, String>,
                sealed: Result<Vec<u8>, LocalLedgerError>,
                drawn: Result<String, LocalLedgerError>,
            |
                blank_gave::<T>(blank) && encoding_gave(
                    old(self)@.data,
                    encoded,
                ) && ((blank is Ok && encoded is Ok) ==> encrypt.ensures(
                    (encoded->Ok_0,),
                    sealed,
                ))
                    && draw_outcome(old(self)@.chain(), drawn) && #[trigger] sealed_store_outcome(
                    old(self)@,
                    old(root)@,
                    blank,
                    encoded,
                    sealed,
                    drawn,
                    final(self)@,
                    final(root)@,
                    r,
                ),
    {
        let default = T::blank();
        let blank = default.encode();
        let encoded = self.data.encode();
        let drawn = self.draw_revision();
        let ghost blank_as = blank;
        assert(is_blank(default) && encoding_gave(default, blank));
        let ghost encoded_as = encoded;
        let ghost drawn_as = drawn;
        let filler = match blank {
            Ok(filler) => filler,
            Err(why) => {
                let r = Err(LocalLedgerError::new(why.as_str()));
                let ghost unused: Result<Vec<u8>, LocalLedgerError> = arbitrary();
                assert(sealed_store_outcome(
                    old(self)@,
                    old(root)@,
                    blank_as,
                    encoded_as,
                    unused,
                    drawn_as,
                    self@,
                    root@,
                    r,
                ));
                return r;
            },
        };
        let plain = match encoded {
            Ok(plain) => plain,
            Err(why) => {
                let r = Err(
                    LocalLedgerError::with_detail("Failed to serialize document: ", why.as_str()),
                );
                let ghost unused: Result<Vec<u8>, LocalLedgerError> = arbitrary();
                assert(sealed_store_outcome(
                    old(self)@,
                    old(root)@,
                    blank_as,
                    encoded_as,
                    unused,
                    drawn_as,
                    self@,
                    root@,
                    r,
                ));
                return r;
            },
        };
        let sealed = encrypt(plain);
        let ghost sealed_as = sealed;
        let r = match sealed {
            Err(e) => Err(e),
            Ok(cipher) => match drawn {
                Err(e) => Err(e),
                Ok(new_rev) => self.store_sealed(root, cipher, filler, new_rev),
            },
        };
        assert(sealed_store_outcome(
            old(self)@,
            old(root)@,
            blank_as,
            encoded_as,
            sealed_as,
            drawn_as,
            self@,
            root@,
            r,
        ));
        r
    }

    /// Opens a file image whose payload decoded as `decoded`: a payload
    /// that did not decode and an encrypted record are refused.
    pub fn open_image(image: DocImage, decoded: Result<T, String>) -> (r: Result<
        Self,
        LocalLedgerError,
    >)
        ensures
            open_outcome(image@, decoded, r),
    {
        match decoded {
            Err(why) => Err(
                LocalLedgerError::with_detail("Failed to parse doc file: ", why.as_str()),
            ),
            Ok(data) => {
                if image.encrypted {
                    Err(LocalLedgerError::new("Load failed.  Data is encrypted"))
                } else {
                    Ok(Self::from_image(image, data))
                }
            },
        }
    }

    /// Opens an encrypted file image whose decrypted bytes decoded as
    /// `decoded`.
    pub fn unseal_image(image: DocImage, decoded: Result<T, String>) -> (r: Result<
        Self,
        LocalLedgerError,
    >)
        ensures
            unseal_outcome(image@, decoded, r),
    {
        match decoded {
            Err(why) => Err(
                LocalLedgerError::with_detail("Failed to parse decrypted data: ", why.as_str()),
            ),
            Ok(data) => {
                let mut d = Self::from_image(image, data);
                d.has_been_decrypted = true;
                Ok(d)
            },
        }
    }

    /// Loads the document at `label`/`uuid`.
    ///
    /// Fails when there is no such file, when its payload does not decode,
    /// and when the record is encrypted.
    pub fn load(root: &StoreRoot, label: &str, uuid: &str) -> (r: Result<Self, LocalLedgerError>)
        ensures
            load_outcome(root@.file(label@, uuid@), uuid@, r),
    {
        match root.read_file(label, uuid) {
            None => Err(LocalLedgerError::with_detail("Document not found: ", uuid)),
            Some(image) => {
                let decoded = T::decode(&image.data);
                let ghost image_view = image@;
                let ghost held = image.data;
                let r = Self::open_image(image, decoded);
                assert(held@ == image_view.data && call_ensures(T::decode, (&held,), decoded));
                assert(decoding_gave(image_view.data, decoded) && open_outcome(
                    image_view,
                    decoded,
                    r,
                ));
                r
            },
        }
    }

    /// Loads the document at `label`/`uuid` if it can be loaded. The
    /// directory of `label` is created on the way.
    pub fn try_load(root: &mut StoreRoot, label: &str, uuid: &str) -> (r: Option<Self>)
        ensures
            final(root)@ == old(root)@.with_dir(label@),
            try_load_outcome(old(root)@.file(label@, uuid@), uuid@, r),
    {
        root.create_dir(label);
        let loaded = Self::load(root, label, uuid);
        let ghost witness = loaded;
        let r = match loaded {
            Ok(doc) => Some(doc),
            Err(_) => None,
        };
        assert(load_outcome(old(root)@.file(label@, uuid@), uuid@, witness));
        r
    }

    /// Loads the encrypted document at `label`/`uuid`: its ciphertext goes
    /// through `decrypt`, and what comes back is decoded into the payload.
    pub fn decrypt_load<F: Fn(&Vec<u8>) -> Result<Vec<u8>, LocalLedgerError>>(
        root: &StoreRoot,
        label: &str,
        uuid: &str,
        decrypt: F,
    ) -> (r: Result<Self, LocalLedgerError>)
        requires
            forall|sealed: &Vec<u8>| decrypt.requires((sealed,)),
        ensures
            match root@.file(label@, uuid@) {
                None => fails_with(r, LocalLedgerErrorType::Default, not_found_message(uuid@)),
                Some(image) => exists|sealed: Vec<u8>, opened: Result<Vec<u8>, LocalLedgerError>|
                    sealed@ == image.encrypted_data && decrypt.ensures((&sealed,), opened)
                        && match opened {
                        Err(e) => r == Err::<Self, LocalLedgerError>(e),
                        Ok(plain) => unsealed_by_decoding(image, plain@, r),
                    },
            },
    {
        match root.read_file(label, uuid) {
            None => Err(LocalLedgerError::with_detail("Document not found: ", uuid)),
            Some(image) => {
                let ghost image_view = image@;
                let opened = decrypt(&image.encrypted_data);
                let ghost witness = image.encrypted_data;
                let ghost opened_view = opened;
                match opened {
                    Err(e) => {
                        let r = Err(e);
                        assert(witness@ == image_view.encrypted_data && decrypt.ensures(
                            (&witness,),
                            opened_view,
                        ));
                        r
                    },
                    Ok(plain) => {
                        let decoded = T::decode(&plain);
                        let r = Self::unseal_image(image, decoded);
                        assert(decoding_gave(plain@, decoded) && unseal_outcome(
                            image_view,
                            decoded,
                            r,
                        ));
                        assert(witness@ == image_view.encrypted_data && decrypt.ensures(
                            (&witness,),
                            opened_view,
                        ));
                        r
                    },
                }
            },
        }
    }

    /// Deletes the file at `label`/`uuid`. The directory of `label` is
    /// created on the way; a file that is not there is an error.
    pub fn remove_doc(root: &mut StoreRoot, label: &str, uuid: &str) -> (r: Result<
        (),
        LocalLedgerError,
    >)
        ensures
            final(root)@ == old(root)@.with_dir(label@).without(label@, uuid@),
            old(root)@.files.contains_key((label@, uuid@)) ==> r is Ok,
            !old(root)@.files.contains_key((label@, uuid@)) ==> fails_with(
                r,
                LocalLedgerErrorType::Default,
                remove_failed_message(uuid@),
            ),
    {
        root.create_dir(label);
        if root.remove_file(label, uuid) {
            Ok(())
        } else {
            Err(LocalLedgerError::with_detail("Failed to remove doc: ", uuid))
        }
    }

    /// Deletes the document's file. The document in memory stays usable.
    pub fn remove(&mut self, root: &mut StoreRoot) -> (r: Result<(), LocalLedgerError>)
        ensures
            final(self)@ == old(self)@,
            final(root)@ == old(root)@.with_dir(old(self)@.label).without(
                old(self)@.label,
                old(self)@.uuid,
            ),
            old(root)@.files.contains_key((old(self)@.label, old(self)@.uuid)) ==> r is Ok,
            !old(root)@.files.contains_key((old(self)@.label, old(self)@.uuid)) ==> fails_with(
                r,
                LocalLedgerErrorType::Default,
                remove_failed_message(old(self)@.uuid),
            ),
    {
        Self::remove_doc(root, self.label.as_str(), self.uuid.as_str())
    }

    /// Whether a file exists at `label`/`uuid`.
    pub fn doc_exists(root: &StoreRoot, label: &str, uuid: &str) -> (r: Result<
        bool,
        LocalLedgerError,
    >)
        ensures
            r == Ok::<bool, LocalLedgerError>(root@.files.contains_key((label@, uuid@))),
    {
        Ok(root.file_exists(label, uuid))
    }

    /// The uuids of the documents in directory `label`.
    pub fn get_all_uuids(root: &StoreRoot, label: &str) -> (r: Result<
        Vec<String>,
        LocalLedgerError,
    >)
        ensures
            root@.dirs.contains(label@) ==> (r matches Ok(uuids) && texts(uuids@) == root.listing(
                label@,
            ) && texts(uuids@).no_duplicates()),
            !root@.dirs.contains(label@) ==> fails_with(
                r,
                LocalLedgerErrorType::Default,
                no_directory_message(label@),
            ),
    {
        match root.list_stems(label) {
            Some(stems) => Ok(stems),
            None => Err(LocalLedgerError::with_detail("Failed to find ledger uuids: ", label)),
        }
    }

    /// The path of the directory that holds the document's collection.
    pub fn get_data_dir(&self, root: &StoreRoot) -> (r: Result<String, LocalLedgerError>)
        ensures
            r matches Ok(p) && p@ == data_dir(root@.path, self@.label),
    {
        let mut p: String = root.path().to_owned();
        p.append("/");
        p.append(self.label.as_str());
        Ok(p)
    }
}

} // verus!

//! The password ledger that the desktop shell drives: one ledger of saved
//! passwords, started with the master password, with every failure given
//! as the text the shell shows.

use vstd::prelude::*;
use crate::document::Payload;
use crate::error::LocalLedgerError;
use crate::json::json_object;
use crate::json::json_text_field;
use crate::json::lemma_short_name_is_free;
use crate::json::pairs;
use crate::json::read_text_field;
use crate::json::write_text_fields;
use crate::ledger::LedgerView;
use crate::ledger::LocalLedger;
use crate::revision::texts;
use crate::root::DocImage;
use crate::root::RootView;
use crate::root::StoreRoot;

verus! {

/// The label of the ledger of saved passwords.
pub const PASSWORD_LEDGER_NAME: &'static str = "Password_Ledger";

pub open spec fn password_ledger_name() -> Seq<char> {
    "Password_Ledger"@
}

pub open spec fn not_started_message() -> Seq<char> {
    "Ledger has not been started"@
}

/// A saved password: the payload of the password ledger.
#[derive(Debug)]
pub struct SavedPassword {
    pub pw: String,
    pub name: String,
}

/// The fields of a saved password in the interchange format.
pub open spec fn saved_password_fields(name: Seq<char>, pw: Seq<char>) -> Seq<
    (Seq<char>, Seq<char>),
> {
    seq![("name"@, name), ("pw"@, pw)]
}

impl Payload for SavedPassword {
    fn encode(&self) -> (r: Result<Vec<u8>, String>)
        ensures
            r matches Ok(bytes) && bytes@ == json_object(
                saved_password_fields(self.name@, self.pw@),
            ) && json_text_field(bytes@, "name"@) == Some(self.name@) && json_text_field(
                bytes@,
                "pw"@,
            ) == Some(self.pw@),
    {
        let mut fields: Vec<(String, String)> = Vec::new();
        fields.push(("name".to_owned(), self.name.clone()));
        fields.push(("pw".to_owned(), self.pw.clone()));
        proof {
            reveal_strlit("name");
            reveal_strlit("pw");
            lemma_short_name_is_free("name"@);
            lemma_short_name_is_free("pw"@);
        }
        let bytes = write_text_fields(&fields);
        proof {
            reveal_strlit("name");
            reveal_strlit("pw");
            let listed = pairs(fields@);
            assert(listed =~= saved_password_fields(self.name@, self.pw@));
            assert("name"@.len() != "pw"@.len());
            assert(listed[0] == ("name"@, self.name@));
            assert(listed[1] == ("pw"@, self.pw@));
        }
        Ok(bytes)
    }

    fn decode(bytes: &Vec<u8>) -> (r: Result<Self, String>)
        ensures
            match (json_text_field(bytes@, "pw"@), json_text_field(bytes@, "name"@)) {
                (Some(pw), Some(name)) => r matches Ok(saved) && saved.pw@ == pw && saved.name@
                    == name,
                _ => r is Err,
            },
    {
        let pw = match read_text_field(bytes, "pw") {
            Some(pw) => pw,
            None => {
                return Err("missing field `pw`".to_owned());
            },
        };
        let name = match read_text_field(bytes, "name") {
            Some(name) => name,
            None => {
                return Err("missing field `name`".to_owned());
            },
        };
        Ok(SavedPassword { pw, name })
    }

    fn blank() -> (r: Self)
        ensures
            r.pw@ == Seq::<char>::empty(),
            r.name@ == Seq::<char>::empty(),
    {
        SavedPassword { pw: String::new(), name: String::new() }
    }
}

/// A read of an entry whose decrypted document the cache holds gives the
/// saved password that the cached bytes hold.
pub proof fn law_cached_password_is_read(
    before: LedgerView,
    root: RootView,
    entry: Seq<char>,
    after: LedgerView,
    r: Result<SavedPassword, LocalLedgerError>,
    name: Seq<char>,
    pw: Seq<char>,
)
    requires
        before.cache_hit(entry),
        crate::ledger::read_outcome(before, root, entry, after, r),
        json_text_field(crate::cache::value_of(before.cache, entry).data, "name"@) == Some(name),
        json_text_field(crate::cache::value_of(before.cache, entry).data, "pw"@) == Some(pw),
    ensures
        r matches Ok(saved) && saved.name@ == name && saved.pw@ == pw,
{
    let bytes = crate::cache::value_of(before.cache, entry).data;
    assert(crate::ledger::decoded_from(bytes, r));
    let decoded = choose|decoded: Result<SavedPassword, String>|
        crate::document::decoding_gave(bytes, decoded) && #[trigger] crate::ledger::payload_outcome(
            decoded,
            r,
        );
    assert(crate::document::decoding_gave(bytes, decoded));
}

/// What encoding a saved password gives is read back as that saved
/// password: the interchange format keeps the name and the password.
pub proof fn law_saved_password_round_trip(
    saved: SavedPassword,
    bytes: Seq<u8>,
    decoded: Result<SavedPassword, String>,
)
    requires
        crate::document::encodes_to(saved, bytes),
        crate::document::decoding_gave(bytes, decoded),
    ensures
        decoded matches Ok(back) && back.name@ == saved.name@ && back.pw@ == saved.pw@,
{
}

/// An entry of the list the shell shows.
#[derive(Debug)]
pub struct EntryMetaData {
    pub label: String,
    pub has_conflict: bool,
}

/// The two passwords of an entry in conflict.
#[derive(Debug)]
pub struct ConfPair {
    pub local_pw: String,
    pub remote_pw: String,
}

/// The entries of a list with their flag: each label, and whether it is
/// in conflict.
pub open spec fn flagged(entries: Seq<EntryMetaData>) -> Seq<(Seq<char>, bool)> {
    Seq::new(entries.len(), |i: int| (entries[i].label@, entries[i].has_conflict))
}

/// The list that the shell shows for the entries `labels` and the entries
/// in conflict `conflicts`: the entries first, then those in conflict.
pub open spec fn shown(labels: Seq<Seq<char>>, conflicts: Seq<Seq<char>>) -> Seq<
    (Seq<char>, bool),
> {
    Seq::new(labels.len(), |i: int| (labels[i], false)) + Seq::new(
        conflicts.len(),
        |i: int| (conflicts[i], true),
    )
}

/// The list that the shell shows for the entries `labels` and the entries
/// in conflict `conflicts`.
pub fn entry_meta_data(labels: Vec<String>, conflicts: Vec<String>) -> (entries: Vec<EntryMetaData>)
    ensures
        flagged(entries@) == shown(texts(labels@), texts(conflicts@)),
{
    let mut entries: Vec<EntryMetaData> = Vec::new();
    let mut i: usize = 0;
    assert(flagged(entries@) =~= shown(texts(labels@).take(0), Seq::empty()));
    while i < labels.len()
        invariant
            i <= labels.len(),
            flagged(entries@) == shown(texts(labels@).take(i as int), Seq::empty()),
        decreases labels.len() - i,
    {
        let ghost before = entries@;
        entries.push(EntryMetaData { label: labels[i].clone(), has_conflict: false });
        proof {
            let next = (labels@[i as int]@, false);
            assert(flagged(entries@) =~= flagged(before).push(next));
            assert(texts(labels@).take(i + 1) =~= texts(labels@).take(i as int).push(
                labels@[i as int]@,
            ));
            assert(shown(texts(labels@).take(i + 1), Seq::empty()) =~= shown(
                texts(labels@).take(i as int),
                Seq::empty(),
            ).push(next));
        }
        i = i + 1;
    }
    assert(texts(labels@).take(labels@.len() as int) =~= texts(labels@));
    let mut j: usize = 0;
    assert(flagged(entries@) =~= shown(texts(labels@), texts(conflicts@).take(0)));
    while j < conflicts.len()
        invariant
            j <= conflicts.len(),
            flagged(entries@) == shown(texts(labels@), texts(conflicts@).take(j as int)),
        decreases conflicts.len() - j,
    {
        let ghost before = entries@;
        entries.push(EntryMetaData { label: conflicts[j].clone(), has_conflict: true });
        proof {
            let next = (conflicts@[j as int]@, true);
            assert(flagged(entries@) =~= flagged(before).push(next));
            assert(texts(conflicts@).take(j + 1) =~= texts(conflicts@).take(j as int).push(
                conflicts@[j as int]@,
            ));
            assert(shown(texts(labels@), texts(conflicts@).take(j + 1)) =~= shown(
                texts(labels@),
                texts(conflicts@).take(j as int),
            ).push(next));
        }
        j = j + 1;
    }
    assert(texts(conflicts@).take(conflicts@.len() as int) =~= texts(conflicts@));
    entries
}

/// How a request to the ledger worker failed.
#[derive(Debug)]
pub enum LocalLedgerWorkerErr {
    StartErr(String),
    ResponseErr(String),
    AddEntryErr(String),
    ListEntriesErr(String),
    GetEntryErr(String),
    GetLedgerContent(String),
}

/// The text of a worker failure: the message it carries.
pub open spec fn worker_err_text(e: LocalLedgerWorkerErr) -> Seq<char> {
    match e {
        LocalLedgerWorkerErr::StartErr(msg) => msg@,
        LocalLedgerWorkerErr::ResponseErr(msg) => msg@,
        LocalLedgerWorkerErr::AddEntryErr(msg) => msg@,
        LocalLedgerWorkerErr::ListEntriesErr(msg) => msg@,
        LocalLedgerWorkerErr::GetEntryErr(msg) => msg@,
        LocalLedgerWorkerErr::GetLedgerContent(msg) => msg@,
    }
}

impl LocalLedgerWorkerErr {
    /// The text a user sees.
    pub fn to_string(&self) -> (text: String)
        ensures
            text@ == worker_err_text(*self),
    {
        match self {
            LocalLedgerWorkerErr::StartErr(msg) => msg.clone(),
            LocalLedgerWorkerErr::ResponseErr(msg) => msg.clone(),
            LocalLedgerWorkerErr::AddEntryErr(msg) => msg.clone(),
            LocalLedgerWorkerErr::ListEntriesErr(msg) => msg.clone(),
            LocalLedgerWorkerErr::GetEntryErr(msg) => msg.clone(),
            LocalLedgerWorkerErr::GetLedgerContent(msg) => msg.clone(),
        }
    }
}

/// How many characters a generated password has.
pub const PASSWORD_LENGTH: usize = 20;

/// `PasswordGenerator::generate_one` of a generator with the settings given. It
/// refuses a zero length, settings that allow no kind of character, and strict
/// settings too short for every kind, each with its message; otherwise it returns
/// `length` characters, each picked at random from the kinds that are allowed.
#[verifier::external_body]
fn random_password(
    length: usize,
    numbers: bool,
    lowercase_letters: bool,
    uppercase_letters: bool,
    symbols: bool,
    spaces: bool,
    exclude_similar_characters: bool,
    strict: bool,
) -> (r: Result<String, String>)
    ensures
        generated(length, numbers, lowercase_letters, uppercase_letters, symbols, spaces, exclude_similar_characters, strict, r),
{
    let generator = passwords::PasswordGenerator {
        length,
        numbers,
        lowercase_letters,
        uppercase_letters,
        symbols,
        spaces,
        exclude_similar_characters,
        strict,
    };
    generator.generate_one().map_err(|err| err.to_string())
}

/// A fresh password: twenty characters out of digits, letters of both
/// cases and symbols, without spaces and without characters that are easy
/// to mistake for one another. It never fails.
pub fn generate_pw() -> (r: Result<String, String>)
    ensures
        r matches Ok(password) && is_password(password@),
{
    random_password(PASSWORD_LENGTH, true, true, true, true, false, true, false)
}

/// The result is the failure with the text `text`.
pub open spec fn fails_saying<V>(r: Result<V, String>, text: Seq<char>) -> bool {
    match r {
        Ok(_) => false,
        Err(msg) => msg@ == text,
    }
}

/// The result of a ledger operation as the shell shows it: a failure
/// becomes its message.
pub open spec fn shows<V>(r: Result<V, String>, inner: Result<V, LocalLedgerError>) -> bool {
    match inner {
        Ok(v) => r == Ok::<V, String>(v),
        Err(e) => fails_saying(r, e.message@),
    }
}

fn show<V>(inner: Result<V, LocalLedgerError>) -> (r: Result<V, String>)
    ensures
        shows(r, inner),
{
    match inner {
        Ok(v) => Ok(v),
        Err(e) => Err(e.to_string()),
    }
}

/// The password ledger of the shell; it has no ledger until it is started.
pub struct PasswordLedgerHandler {
    ledger: Option<LocalLedger<SavedPassword>>,
}

impl PasswordLedgerHandler {
    /// The ledger, once the handler is started.
    pub closed spec fn ledger(&self) -> Option<LedgerView> {
        match self.ledger {
            Some(ledger) => Some(ledger@),
            None => None,
        }
    }

    /// A handler that is not started.
    pub fn new() -> (handler: Self)
        ensures
            handler.ledger() is None,
    {
        PasswordLedgerHandler { ledger: None }
    }

    /// Starts the handler: opens the password ledger under `master_pw`. A
    /// handler that is started stays as it is.
    pub fn start(&mut self, root: &mut StoreRoot, master_pw: &str) -> (r: Result<(), String>)
        ensures
            old(self).ledger() is Some ==> r is Ok && final(self).ledger() == old(self).ledger()
                && final(root)@ == old(root)@,
            old(self).ledger() is None ==> exists|opened: Result<
                LocalLedger<SavedPassword>,
                LocalLedgerError,
            >|
                #[trigger] crate::ledger::open_ledger_outcome(
                    old(root)@,
                    password_ledger_name(),
                    master_pw@,
                    final(root)@,
                    opened,
                ) && match opened {
                    Ok(ledger) => r is Ok && final(self).ledger() == Some(ledger@),
                    Err(e) => fails_saying(r, e.message@) && final(self).ledger() is None,
                },
    {
        if self.ledger.is_some() {
            return Ok(());
        }
        let opened = LocalLedger::<SavedPassword>::new(
            root,
            PASSWORD_LEDGER_NAME,
            master_pw.to_owned(),
        );
        let ghost witness = opened;
        match opened {
            Ok(ledger) => {
                self.ledger = Some(ledger);
                assert(crate::ledger::open_ledger_outcome(
                    old(root)@,
                    password_ledger_name(),
                    master_pw@,
                    root@,
                    witness,
                ));
                Ok(())
            },
            Err(e) => {
                assert(crate::ledger::open_ledger_outcome(
                    old(root)@,
                    password_ledger_name(),
                    master_pw@,
                    root@,
                    witness,
                ));
                Err(e.to_string())
            },
        }
    }

    /// Saves the password `pw` under the new entry `entry_name`.
    pub fn add_entry(&mut self, root: &mut StoreRoot, entry_name: &str, pw: &str) -> (r: Result<
        (),
        String,
    >)
        ensures
            old(self).ledger() is None ==> fails_saying(r, not_started_message()) && final(self).ledger() is None && final(root)@ == old(root)@,
            old(self).ledger() is Some ==> final(self).ledger() is Some && exists|
                created: Result<String, LocalLedgerError>,
            |
                #[trigger] crate::ledger::create_outcome(
                    old(self).ledger()->0,
                    old(root)@,
                    entry_name@,
                    final(self).ledger()->0,
                    final(root)@,
                    created,
                ) && (r is Ok <==> created is Ok) && (created is Err ==> fails_saying(
                    r,
                    created->Err_0.message@,
                )),
    {
        let mut password_ledger = match self.ledger.take() {
            None => {
                return Err("Ledger has not been started".to_owned());
            },
            Some(password_ledger) => password_ledger,
        };
        let saved_password = SavedPassword { name: entry_name.to_owned(), pw: pw.to_owned() };
        let created = password_ledger.create(root, saved_password, entry_name);
        let ghost witness = created;
        let r = match created {
            Ok(_) => Ok(()),
            Err(e) => Err(e.to_string()),
        };
        self.ledger = Some(password_ledger);
        assert(crate::ledger::create_outcome(
            old(self).ledger()->0,
            old(root)@,
            entry_name@,
            self.ledger()->0,
            root@,
            witness,
        ));
        r
    }

    /// Replaces the password of the entry `entry_name` by `pw`.
    pub fn update_entry(&mut self, root: &mut StoreRoot, entry_name: &str, pw: &str) -> (r: Result<
        (),
        String,
    >)
        ensures
            old(self).ledger() is None ==> fails_saying(r, not_started_message()) && final(self).ledger() is None && final(root)@ == old(root)@,
            old(self).ledger() is Some ==> final(self).ledger() is Some && exists|
                updated: Result<(), LocalLedgerError>,
            |
                #[trigger] crate::ledger::update_outcome(
                    old(self).ledger()->0,
                    old(root)@,
                    entry_name@,
                    final(self).ledger()->0,
                    final(root)@,
                    updated,
                ) && shows(r, updated),
    {
        let mut password_ledger = match self.ledger.take() {
            None => {
                return Err("Ledger has not been started".to_owned());
            },
            Some(password_ledger) => password_ledger,
        };
        let saved_password = SavedPassword { name: entry_name.to_owned(), pw: pw.to_owned() };
        let updated = password_ledger.update(root, entry_name, saved_password);
        let ghost witness = updated;
        let r = show(updated);
        self.ledger = Some(password_ledger);
        assert(crate::ledger::update_outcome(
            old(self).ledger()->0,
            old(root)@,
            entry_name@,
            self.ledger()->0,
            root@,
            witness,
        ) && shows(r, witness));
        r
    }

    /// Replaces the password of the entry `entry_name` by one that was just generated.
    pub fn regen_pw(&mut self, root: &mut StoreRoot, entry_name: &str) -> (r: Result<(), String>)
        ensures
            old(self).ledger() is None ==> fails_saying(r, not_started_message()) && final(self).ledger() is None && final(root)@ == old(root)@,
            old(self).ledger() is Some ==> final(self).ledger() is Some && exists|
                updated: Result<(), LocalLedgerError>,
            |
                #[trigger] crate::ledger::update_outcome(
                    old(self).ledger()->0,
                    old(root)@,
                    entry_name@,
                    final(self).ledger()->0,
                    final(root)@,
                    updated,
                ) && shows(r, updated),
    {
        let pw = match generate_pw() {
            Ok(pw) => pw,
            Err(why) => {
                return Err(why);
            },
        };
        self.update_entry(root, entry_name, pw.as_str())
    }

    /// Deletes the entry `entry_name`.
    pub fn remove_entry(&mut self, root: &mut StoreRoot, entry_name: &str) -> (r: Result<
        (),
        String,
    >)
        ensures
            old(self).ledger() is None ==> fails_saying(r, not_started_message()) && final(self).ledger() is None && final(root)@ == old(root)@,
            old(self).ledger() is Some ==> final(self).ledger() is Some && exists|
                removed: Result<(), LocalLedgerError>,
            |
                #[trigger] crate::ledger::remove_outcome(
                    old(self).ledger()->0,
                    old(root)@,
                    entry_name@,
                    final(self).ledger()->0,
                    final(root)@,
                    removed,
                ) && shows(r, removed),
    {
        let mut password_ledger = match self.ledger.take() {
            None => {
                return Err("Ledger has not been started".to_owned());
            },
            Some(password_ledger) => password_ledger,
        };
        let removed = password_ledger.remove(root, entry_name);
        let ghost witness = removed;
        let r = show(removed);
        self.ledger = Some(password_ledger);
        assert(crate::ledger::remove_outcome(
            old(self).ledger()->0,
            old(root)@,
            entry_name@,
            self.ledger()->0,
            root@,
            witness,
        ) && shows(r, witness));
        r
    }

    /// The list the shell shows: the ledger's entries, then the entries in
    /// conflict.
    pub fn list_entry_meta_data(&self, root: &StoreRoot) -> (r: Result<Vec<EntryMetaData>, String>)
        ensures
            self.ledger() is None ==> fails_saying(r, not_started_message()),
            self.ledger() is Some && root@.dirs.contains(self.ledger()->0.name) ==> (
            r matches Ok(entries) && flagged(entries@) == shown(
                crate::ledger::entry_labels(root.listing(self.ledger()->0.name)),
                if root@.dirs.contains(crate::ledger::conflicts_dir(self.ledger()->0.name)) {
                    crate::ledger::conflict_labels(
                        root.listing(crate::ledger::conflicts_dir(self.ledger()->0.name)),
                    )
                } else {
                    Seq::empty()
                },
            )),
            self.ledger() is Some && !root@.dirs.contains(self.ledger()->0.name) ==> r is Err,
    {
        match &self.ledger {
            None => Err("Ledger has not been started".to_owned()),
            Some(password_ledger) => {
                let entries_with_conflict = match password_ledger.list_entries_with_conflicts(
                    root,
                ) {
                    Ok(entries) => entries,
                    Err(e) => {
                        return Err(e.to_string());
                    },
                };
                let entries = match password_ledger.list_entry_labels(root) {
                    Ok(entries) => entries,
                    Err(e) => {
                        return Err(e.to_string());
                    },
                };
                Ok(entry_meta_data(entries, entries_with_conflict))
            },
        }
    }

    /// The password saved under the entry `entry_name`.
    pub fn get_pw(&mut self, root: &StoreRoot, entry_name: &str) -> (r: Result<String, String>)
        ensures
            old(self).ledger() is None ==> fails_saying(r, not_started_message()) && final(self).ledger() is None,
            old(self).ledger() is Some ==> final(self).ledger() is Some && exists|
                read: Result<SavedPassword, LocalLedgerError>,
            |
                #[trigger] crate::ledger::read_outcome(
                    old(self).ledger()->0,
                    root@,
                    entry_name@,
                    final(self).ledger()->0,
                    read,
                ) && match read {
                    Ok(saved) => r matches Ok(pw) && pw@ == saved.pw@,
                    Err(e) => fails_saying(r, e.message@),
                },
    {
        let mut password_ledger = match self.ledger.take() {
            None => {
                return Err("Ledger has not been started".to_owned());
            },
            Some(password_ledger) => password_ledger,
        };
        let read = password_ledger.read_by_entry_name(root, entry_name);
        let ghost witness = read;
        let r = match read {
            Ok(saved_pw) => Ok(saved_pw.pw),
            Err(e) => Err(e.to_string()),
        };
        self.ledger = Some(password_ledger);
        assert(crate::ledger::read_outcome(
            old(self).ledger()->0,
            root@,
            entry_name@,
            self.ledger()->0,
            witness,
        ));
        r
    }

    /// The path of the password ledger's directory.
    pub fn get_ledger_dir(&self, root: &StoreRoot) -> (r: Result<String, String>)
        ensures
            self.ledger() is None ==> fails_saying(r, not_started_message()),
            self.ledger() is Some ==> (r matches Ok(path) && path@ == crate::document::data_dir(
                root@.path,
                self.ledger()->0.name,
            )),
    {
        match &self.ledger {
            None => Err("Ledger has not been started".to_owned()),
            Some(password_ledger) => show(password_ledger.get_ledger_dir(root)),
        }
    }

    /// The documents of the password ledger, as a dump sends them.
    pub fn get_doc_dump(&self, root: &StoreRoot) -> (r: Result<Vec<DocImage>, String>)
        ensures
            self.ledger() is None ==> fails_saying(r, not_started_message()),
            self.ledger() is Some && root@.dirs.contains(self.ledger()->0.name) ==> (
            r matches Ok(images) && images@.len() == root.listing(self.ledger()->0.name).len()
                && forall|i: int|
                0 <= i < images@.len() ==> root@.file(
                    self.ledger()->0.name,
                    #[trigger] root.listing(self.ledger()->0.name)[i],
                ) == Some(images@[i]@)),
            self.ledger() is Some && !root@.dirs.contains(self.ledger()->0.name) ==> r is Err,
    {
        match &self.ledger {
            None => Err("Ledger has not been started".to_owned()),
            Some(password_ledger) => show(password_ledger.doc_dump(root)),
        }
    }

    /// Merges a peer's dump into the password ledger.
    pub fn merge(&mut self, root: &mut StoreRoot, incoming: &Vec<DocImage>) -> (r: Result<
        (),
        String,
    >)
        ensures
            final(self).ledger() == old(self).ledger(),
            old(self).ledger() is None ==> fails_saying(r, not_started_message()) && final(root)@
                == old(root)@,
            old(self).ledger() is Some ==> exists|merged: Result<(), LocalLedgerError>|
                #[trigger] crate::merge::merge_outcome(
                    old(self).ledger()->0,
                    old(root)@,
                    crate::merge::images(incoming@),
                    final(root)@,
                    merged,
                ) && shows(r, merged),
    {
        match &self.ledger {
            None => Err("Ledger has not been started".to_owned()),
            Some(password_ledger) => {
                let merged = password_ledger.merge(root, incoming);
                let ghost witness = merged;
                let r = show(merged);
                assert(crate::merge::merge_outcome(
                    old(self).ledger()->0,
                    old(root)@,
                    crate::merge::images(incoming@),
                    root@,
                    witness,
                ) && shows(r, witness));
                r
            },
        }
    }

    /// The two passwords of the entry `entry_name` in conflict: the local
    /// one, and the one that came with the merge.
    pub fn get_conf_pair(&mut self, root: &StoreRoot, entry_name: &str) -> (r: Result<
        (String, String),
        String,
    >)
        ensures
            old(self).ledger() is None ==> fails_saying(r, not_started_message()) && final(self).ledger() is None,
            old(self).ledger() is Some ==> final(self).ledger() is Some,
            old(self).ledger() is Some && !root@.files.contains_key(
                (
                    crate::ledger::conflicts_dir(old(self).ledger()->0.name),
                    crate::ledger::conflict_of(entry_name@),
                ),
            ) ==> r is Err,
    {
        let mut password_ledger = match self.ledger.take() {
            None => {
                return Err("Ledger has not been started".to_owned());
            },
            Some(password_ledger) => password_ledger,
        };
        let conf = password_ledger.get_conf(root, entry_name);
        let r = match conf {
            Err(e) => Err(e.to_string()),
            Ok(conf_doc) => match password_ledger.read_by_entry_name(root, entry_name) {
                Err(e) => Err(e.to_string()),
                Ok(local) => Ok((local.pw, conf_doc.data_in_memory().pw.clone())),
            },
        };
        self.ledger = Some(password_ledger);
        r
    }

    /// Settles the conflict of the entry `entry_name`.
    pub fn resolve(&mut self, root: &mut StoreRoot, entry_name: &str, keep_original: bool) -> (r:
        Result<(), String>)
        ensures
            old(self).ledger() is None ==> fails_saying(r, not_started_message()) && final(self).ledger() is None && final(root)@ == old(root)@,
            old(self).ledger() is Some ==> final(self).ledger() is Some && exists|
                resolved: Result<(), LocalLedgerError>,
            |
                #[trigger] crate::ledger::resolve_outcome(
                    old(self).ledger()->0,
                    old(root)@,
                    entry_name@,
                    keep_original,
                    final(self).ledger()->0,
                    final(root)@,
                    resolved,
                ) && shows(r, resolved),
    {
        let mut password_ledger = match self.ledger.take() {
            None => {
                return Err("Ledger has not been started".to_owned());
            },
            Some(password_ledger) => password_ledger,
        };
        let resolved = password_ledger.resolve(root, entry_name, keep_original);
        let ghost witness = resolved;
        let r = show(resolved);
        self.ledger = Some(password_ledger);
        assert(crate::ledger::resolve_outcome(
            old(self).ledger()->0,
            old(root)@,
            entry_name@,
            keep_original,
            self.ledger()->0,
            root@,
            witness,
        ) && shows(r, witness));
        r
    }
}

/// A request to the ledger worker.
#[derive(Debug)]
pub enum LocalLedgerMessage {
    Start { ledger_name: String, master_pw: String },
    AddEntry { entry_name: String, pw: String },
    List,
    GetEntry { entry_name: String },
    UpdateEntry { entry_name: String, pw: String },
    RemoveEntry { entry_name: String },
    GetLedgerDir,
    GetLedgerContent,
}

/// What the ledger worker answers, by the kind of what was asked for.
#[derive(Debug)]
pub enum LocalLedgerAnswer {
    /// The answer to `Start`, `AddEntry`, `UpdateEntry` and `RemoveEntry`.
    Done(Result<(), LocalLedgerWorkerErr>),
    /// The answer to `List`.
    Labels(Result<Vec<String>, LocalLedgerWorkerErr>),
    /// The answer to `GetEntry`.
    Entry(Result<String, LocalLedgerWorkerErr>),
    /// The answer to `GetLedgerDir`.
    Dir(Result<String, LocalLedgerWorkerErr>),
    /// The answer to `GetLedgerContent`.
    Content(Result<Vec<DocImage>, LocalLedgerWorkerErr>),
}

pub open spec fn worker_not_started_message() -> Seq<char> {
    "LocalLedgerWorker has not been started"@
}

pub open spec fn worker_not_started_to_add_message() -> Seq<char> {
    "LocalLedgerWorker has not been started."@
}

/// The answer is of the kind that the request asks for.
pub open spec fn answers(msg: LocalLedgerMessage, answer: LocalLedgerAnswer) -> bool {
    match msg {
        LocalLedgerMessage::Start { .. } => answer is Done,
        LocalLedgerMessage::AddEntry { .. } => answer is Done,
        LocalLedgerMessage::UpdateEntry { .. } => answer is Done,
        LocalLedgerMessage::RemoveEntry { .. } => answer is Done,
        LocalLedgerMessage::List => answer is Labels,
        LocalLedgerMessage::GetEntry { .. } => answer is Entry,
        LocalLedgerMessage::GetLedgerDir => answer is Dir,
        LocalLedgerMessage::GetLedgerContent => answer is Content,
    }
}

/// The answer that a worker without a ledger gives to a request other
/// than `Start`: the failure of the request's kind, saying that the worker
/// has not been started.
pub open spec fn turned_down(msg: LocalLedgerMessage, answer: LocalLedgerAnswer) -> bool {
    match msg {
        LocalLedgerMessage::Start { .. } => true,
        LocalLedgerMessage::AddEntry { .. } => answer matches LocalLedgerAnswer::Done(
            Err(LocalLedgerWorkerErr::AddEntryErr(text)),
        ) && text@ == worker_not_started_to_add_message(),
        LocalLedgerMessage::UpdateEntry { .. } => answer matches LocalLedgerAnswer::Done(
            Err(LocalLedgerWorkerErr::GetEntryErr(text)),
        ) && text@ == worker_not_started_message(),
        LocalLedgerMessage::RemoveEntry { .. } => answer matches LocalLedgerAnswer::Done(
            Err(LocalLedgerWorkerErr::GetEntryErr(text)),
        ) && text@ == worker_not_started_message(),
        LocalLedgerMessage::List => answer matches LocalLedgerAnswer::Labels(
            Err(LocalLedgerWorkerErr::ListEntriesErr(text)),
        ) && text@ == worker_not_started_message(),
        LocalLedgerMessage::GetEntry { .. } => answer matches LocalLedgerAnswer::Entry(
            Err(LocalLedgerWorkerErr::GetEntryErr(text)),
        ) && text@ == worker_not_started_message(),
        LocalLedgerMessage::GetLedgerDir => answer matches LocalLedgerAnswer::Dir(
            Err(LocalLedgerWorkerErr::GetEntryErr(text)),
        ) && text@ == worker_not_started_message(),
        LocalLedgerMessage::GetLedgerContent => answer matches LocalLedgerAnswer::Content(
            Err(LocalLedgerWorkerErr::GetLedgerContent(text)),
        ) && text@ == worker_not_started_message(),
    }
}

/// The kind of a worker failure, as a number: its place among the kinds.
pub open spec fn worker_err_kind(e: LocalLedgerWorkerErr) -> int {
    match e {
        LocalLedgerWorkerErr::StartErr(_) => 0,
        LocalLedgerWorkerErr::ResponseErr(_) => 1,
        LocalLedgerWorkerErr::AddEntryErr(_) => 2,
        LocalLedgerWorkerErr::ListEntriesErr(_) => 3,
        LocalLedgerWorkerErr::GetEntryErr(_) => 4,
        LocalLedgerWorkerErr::GetLedgerContent(_) => 5,
    }
}

/// The worker's answer passes the ledger's result on: it succeeds when
/// the ledger did, and fails with the ledger's message, as a failure of
/// kind `kind`, when it did not.
pub open spec fn passes_on<V, W>(
    answer: Result<V, LocalLedgerWorkerErr>,
    inner: Result<W, LocalLedgerError>,
    kind: int,
) -> bool {
    match inner {
        Ok(_) => answer is Ok,
        Err(e) => answer matches Err(w) && worker_err_kind(w) == kind && worker_err_text(w)
            == e.message@,
    }
}

/// What a worker with the ledger `before` does with a request other than
/// `Start`: the ledger operation that the request names, with its result
/// passed on in the answer.
pub open spec fn served(
    before: LedgerView,
    root0: RootView,
    msg: LocalLedgerMessage,
    after: LedgerView,
    root1: RootView,
    answer: LocalLedgerAnswer,
    listing: Seq<Seq<char>>,
) -> bool {
    match msg {
        LocalLedgerMessage::Start { .. } => true,
        LocalLedgerMessage::AddEntry { entry_name, pw } => answer matches LocalLedgerAnswer::Done(
            done,
        ) && exists|created: Result<String, LocalLedgerError>|
            #[trigger] crate::ledger::create_outcome(
                before,
                root0,
                entry_name@,
                after,
                root1,
                created,
            ) && passes_on(done, created, 2),
        LocalLedgerMessage::UpdateEntry {
            entry_name,
            pw,
        } => answer matches LocalLedgerAnswer::Done(done) && exists|
            updated: Result<(), LocalLedgerError>,
        |
            #[trigger] crate::ledger::update_outcome(
                before,
                root0,
                entry_name@,
                after,
                root1,
                updated,
            ) && passes_on(done, updated, 4),
        LocalLedgerMessage::RemoveEntry { entry_name } => answer matches LocalLedgerAnswer::Done(
            done,
        ) && exists|removed: Result<(), LocalLedgerError>|
            #[trigger] crate::ledger::remove_outcome(
                before,
                root0,
                entry_name@,
                after,
                root1,
                removed,
            ) && passes_on(done, removed, 4),
        LocalLedgerMessage::GetEntry { entry_name } => answer matches LocalLedgerAnswer::Entry(
            entry,
        ) && root1 == root0 && exists|read: Result<SavedPassword, LocalLedgerError>|
            #[trigger] crate::ledger::read_outcome(before, root0, entry_name@, after, read)
                && passes_on(entry, read, 4) && (read matches Ok(saved) ==> entry matches Ok(pw)
                && pw@ == saved.pw@),
        LocalLedgerMessage::List => answer matches LocalLedgerAnswer::Labels(labels)
            && after == before && root1 == root0 && if root0.dirs.contains(before.name) {
            labels matches Ok(names) && texts(names@) == crate::ledger::entry_labels(listing)
        } else {
            labels matches Err(w) && worker_err_kind(w) == 3
        },
        LocalLedgerMessage::GetLedgerDir => answer matches LocalLedgerAnswer::Dir(Ok(path))
            && after == before && root1 == root0 && path@ == crate::document::data_dir(
            root0.path,
            before.name,
        ),
        LocalLedgerMessage::GetLedgerContent => answer matches LocalLedgerAnswer::Content(content)
            && after == before && root1 == root0 && if root0.dirs.contains(before.name) {
            content matches Ok(images) && images@.len() == listing.len() && forall|i: int|
                0 <= i < images@.len() ==> root0.file(before.name, #[trigger] listing[i]) == Some(
                    images@[i]@,
                )
        } else {
            content matches Err(w) && worker_err_kind(w) == 5
        },
    }
}

/// The worker that owns a ledger of saved passwords and serves one request
/// at a time.
pub struct LocalLedgerWorker {
    local_ledger: Option<LocalLedger<SavedPassword>>,
}

impl LocalLedgerWorker {
    /// The ledger, once the worker is started.
    pub closed spec fn ledger(&self) -> Option<LedgerView> {
        match self.local_ledger {
            Some(ledger) => Some(ledger@),
            None => None,
        }
    }

    /// A worker that is not started.
    pub fn new() -> (worker: Self)
        ensures
            worker.ledger() is None,
    {
        LocalLedgerWorker { local_ledger: None }
    }

    /// Serves one request.
    ///
    /// The answer is of the kind asked for. A worker without a ledger
    /// turns down everything but `Start`, and changes nothing. Only
    /// `Start` gives the worker a ledger, and only `Start`, `AddEntry`,
    /// `UpdateEntry` and `RemoveEntry` touch the tree.
    pub fn handle_msg(&mut self, root: &mut StoreRoot, msg: LocalLedgerMessage) -> (answer:
        LocalLedgerAnswer)
        ensures
            answers(msg, answer),
            old(self).ledger() is None ==> turned_down(msg, answer),
            old(self).ledger() is None && !(msg is Start) ==> final(self).ledger() is None
                && final(root)@ == old(root)@,
            old(self).ledger() is Some && !(msg is Start) ==> final(self).ledger() is Some
                && served(
                old(self).ledger()->0,
                old(root)@,
                msg,
                final(self).ledger()->0,
                final(root)@,
                answer,
                old(root).listing(old(self).ledger()->0.name),
            ),
            (msg is List || msg is GetEntry || msg is GetLedgerDir || msg is GetLedgerContent)
                ==> final(root)@ == old(root)@,
            msg matches LocalLedgerMessage::Start { ledger_name, master_pw } ==> (
            answer matches LocalLedgerAnswer::Done(started) && exists|
                opened: Result<LocalLedger<SavedPassword>, LocalLedgerError>,
            |
                #[trigger] crate::ledger::open_ledger_outcome(
                    old(root)@,
                    ledger_name@,
                    master_pw@,
                    final(root)@,
                    opened,
                ) && match opened {
                    Ok(ledger) => started is Ok && final(self).ledger() == Some(ledger@),
                    Err(e) => started matches Err(LocalLedgerWorkerErr::StartErr(text)) && text@
                        == e.message@ && final(self).ledger() == old(self).ledger(),
                }),
    {
        match msg {
            LocalLedgerMessage::Start { ledger_name, master_pw } => {
                let opened = LocalLedger::<SavedPassword>::new(
                    root,
                    ledger_name.as_str(),
                    master_pw,
                );
                let ghost witness = opened;
                let started = match opened {
                    Ok(ledger) => {
                        self.local_ledger = Some(ledger);
                        Ok(())
                    },
                    Err(e) => Err(LocalLedgerWorkerErr::StartErr(e.to_string())),
                };
                assert(crate::ledger::open_ledger_outcome(
                    old(root)@,
                    ledger_name@,
                    master_pw@,
                    root@,
                    witness,
                ));
                LocalLedgerAnswer::Done(started)
            },
            LocalLedgerMessage::AddEntry { entry_name, pw } => {
                let mut ledger = match self.local_ledger.take() {
                    None => {
                        return LocalLedgerAnswer::Done(
                            Err(
                                LocalLedgerWorkerErr::AddEntryErr(
                                    "LocalLedgerWorker has not been started.".to_owned(),
                                ),
                            ),
                        );
                    },
                    Some(ledger) => ledger,
                };
                let saved_password = SavedPassword { pw, name: entry_name.clone() };
                let created = ledger.create(root, saved_password, entry_name.as_str());
                let ghost witness = created;
                let added = match created {
                    Ok(_) => Ok(()),
                    Err(e) => Err(LocalLedgerWorkerErr::AddEntryErr(e.to_string())),
                };
                self.local_ledger = Some(ledger);
                assert(crate::ledger::create_outcome(
                    old(self).ledger()->0,
                    old(root)@,
                    entry_name@,
                    self.ledger()->0,
                    root@,
                    witness,
                ) && passes_on(added, witness, 2));
                LocalLedgerAnswer::Done(added)
            },
            LocalLedgerMessage::List => {
                match &self.local_ledger {
                    None => LocalLedgerAnswer::Labels(
                        Err(
                            LocalLedgerWorkerErr::ListEntriesErr(
                                "LocalLedgerWorker has not been started".to_owned(),
                            ),
                        ),
                    ),
                    Some(ledger) => LocalLedgerAnswer::Labels(
                        match ledger.list_entry_labels(root) {
                            Ok(labels) => Ok(labels),
                            Err(e) => Err(LocalLedgerWorkerErr::ListEntriesErr(e.to_string())),
                        },
                    ),
                }
            },
            LocalLedgerMessage::GetEntry { entry_name } => {
                let mut ledger = match self.local_ledger.take() {
                    None => {
                        return LocalLedgerAnswer::Entry(
                            Err(
                                LocalLedgerWorkerErr::GetEntryErr(
                                    "LocalLedgerWorker has not been started".to_owned(),
                                ),
                            ),
                        );
                    },
                    Some(ledger) => ledger,
                };
                let read = ledger.read_by_entry_name(root, entry_name.as_str());
                let ghost witness = read;
                let pw = match read {
                    Ok(saved_password) => Ok(saved_password.pw),
                    Err(e) => Err(LocalLedgerWorkerErr::GetEntryErr(e.to_string())),
                };
                self.local_ledger = Some(ledger);
                assert(crate::ledger::read_outcome(
                    old(self).ledger()->0,
                    old(root)@,
                    entry_name@,
                    self.ledger()->0,
                    witness,
                ) && passes_on(pw, witness, 4));
                LocalLedgerAnswer::Entry(pw)
            },
            LocalLedgerMessage::UpdateEntry { entry_name, pw } => {
                let mut ledger = match self.local_ledger.take() {
                    None => {
                        return LocalLedgerAnswer::Done(
                            Err(
                                LocalLedgerWorkerErr::GetEntryErr(
                                    "LocalLedgerWorker has not been started".to_owned(),
                                ),
                            ),
                        );
                    },
                    Some(ledger) => ledger,
                };
                let saved_password = SavedPassword { pw, name: entry_name.clone() };
                let stored = ledger.update(root, entry_name.as_str(), saved_password);
                let ghost witness = stored;
                let updated = match stored {
                    Ok(()) => Ok(()),
                    Err(e) => Err(LocalLedgerWorkerErr::GetEntryErr(e.to_string())),
                };
                self.local_ledger = Some(ledger);
                assert(crate::ledger::update_outcome(
                    old(self).ledger()->0,
                    old(root)@,
                    entry_name@,
                    self.ledger()->0,
                    root@,
                    witness,
                ) && passes_on(updated, witness, 4));
                LocalLedgerAnswer::Done(updated)
            },
            LocalLedgerMessage::RemoveEntry { entry_name } => {
                let mut ledger = match self.local_ledger.take() {
                    None => {
                        return LocalLedgerAnswer::Done(
                            Err(
                                LocalLedgerWorkerErr::GetEntryErr(
                                    "LocalLedgerWorker has not been started".to_owned(),
                                ),
                            ),
                        );
                    },
                    Some(ledger) => ledger,
                };
                let deleted = ledger.remove(root, entry_name.as_str());
                let ghost witness = deleted;
                let removed = match deleted {
                    Ok(()) => Ok(()),
                    Err(e) => Err(LocalLedgerWorkerErr::GetEntryErr(e.to_string())),
                };
                self.local_ledger = Some(ledger);
                assert(crate::ledger::remove_outcome(
                    old(self).ledger()->0,
                    old(root)@,
                    entry_name@,
                    self.ledger()->0,
                    root@,
                    witness,
                ) && passes_on(removed, witness, 4));
                LocalLedgerAnswer::Done(removed)
            },
            LocalLedgerMessage::GetLedgerDir => {
                match &self.local_ledger {
                    None => LocalLedgerAnswer::Dir(
                        Err(
                            LocalLedgerWorkerErr::GetEntryErr(
                                "LocalLedgerWorker has not been started".to_owned(),
                            ),
                        ),
                    ),
                    Some(ledger) => LocalLedgerAnswer::Dir(
                        match ledger.get_ledger_dir(root) {
                            Ok(dir) => Ok(dir),
                            Err(e) => Err(LocalLedgerWorkerErr::GetEntryErr(e.to_string())),
                        },
                    ),
                }
            },
            LocalLedgerMessage::GetLedgerContent => {
                match &self.local_ledger {
                    None => LocalLedgerAnswer::Content(
                        Err(
                            LocalLedgerWorkerErr::GetLedgerContent(
                                "LocalLedgerWorker has not been started".to_owned(),
                            ),
                        ),
                    ),
                    Some(ledger) => LocalLedgerAnswer::Content(
                        match ledger.doc_dump(root) {
                            Ok(images) => Ok(images),
                            Err(e) => Err(LocalLedgerWorkerErr::GetLedgerContent(e.to_string())),
                        },
                    ),
                }
            },
        }
    }
}

/// How many kinds of characters a generator allows.
pub open spec fn kinds_allowed(
    numbers: bool,
    lowercase_letters: bool,
    uppercase_letters: bool,
    symbols: bool,
    spaces: bool,
) -> int {
    (if numbers { 1int } else { 0int }) + (if lowercase_letters { 1int } else { 0int }) + (
    if uppercase_letters { 1int } else { 0int }) + (if symbols { 1int } else { 0int }) + (
    if spaces { 1int } else { 0int })
}

/// Why a generator with the settings given makes no password, where it
/// makes none: the length is zero, no kind of character is allowed, or
/// every kind must occur and the length has no room for that.
pub open spec fn refusal(
    length: usize,
    numbers: bool,
    lowercase_letters: bool,
    uppercase_letters: bool,
    symbols: bool,
    spaces: bool,
    strict: bool,
) -> Option<Seq<char>> {
    let kinds = kinds_allowed(numbers, lowercase_letters, uppercase_letters, symbols, spaces);
    if length == 0 {
        Some("The length of passwords cannot be 0."@)
    } else if kinds == 0 {
        Some("You need to enable at least one kind of characters."@)
    } else if strict && length < kinds {
        Some("The length of passwords is too short."@)
    } else {
        None
    }
}

/// Whether `c` is a punctuation mark of the ASCII range.
pub open spec fn is_symbol(c: char) -> bool {
    ('!' <= c && c <= '/') || (':' <= c && c <= '@') || ('[' <= c && c <= '`') || ('{' <= c && c
        <= '~')
}

/// Whether a generator with the settings given may pick `c`: it belongs to
/// a kind that is allowed and, where similar characters are excluded, is
/// none of ``iI1loO0"'`|``.
pub open spec fn may_pick(
    c: char,
    numbers: bool,
    lowercase_letters: bool,
    uppercase_letters: bool,
    symbols: bool,
    spaces: bool,
    exclude_similar_characters: bool,
) -> bool {
    ||| numbers && '0' <= c && c <= '9' && (exclude_similar_characters ==> c != '0' && c != '1')
    ||| lowercase_letters && 'a' <= c && c <= 'z' && (exclude_similar_characters ==> c != 'i'
        && c != 'l' && c != 'o')
    ||| uppercase_letters && 'A' <= c && c <= 'Z' && (exclude_similar_characters ==> c != 'I'
        && c != 'O')
    ||| symbols && is_symbol(c) && (exclude_similar_characters ==> c != '"' && c != '\''
        && c != '`' && c != '|')
    ||| spaces && c == ' '
}

/// What a generator with the settings given returns: its refusal, where
/// it has one, and otherwise a password of `length` characters, each one
/// that it may pick.
pub open spec fn generated(
    length: usize,
    numbers: bool,
    lowercase_letters: bool,
    uppercase_letters: bool,
    symbols: bool,
    spaces: bool,
    exclude_similar_characters: bool,
    strict: bool,
    r: Result<String, String>,
) -> bool {
    match refusal(
        length,
        numbers,
        lowercase_letters,
        uppercase_letters,
        symbols,
        spaces,
        strict,
    ) {
        Some(text) => r matches Err(why) && why@ == text,
        None => r matches Ok(password) && password@.len() == length && forall|i: int|
            0 <= i < password@.len() ==> may_pick(
                #[trigger] password@[i],
                numbers,
                lowercase_letters,
                uppercase_letters,
                symbols,
                spaces,
                exclude_similar_characters,
            ),
    }
}

/// Whether `c` may stand in a generated password: a digit, a letter of
/// either case or a punctuation mark, and none of ``iI1loO0"'`|``.
pub open spec fn is_password_char(c: char) -> bool {
    may_pick(c, true, true, true, true, false, true)
}

/// Whether `password` is what a fresh password is: twenty characters, each
/// one that may stand in a generated password.
pub open spec fn is_password(password: Seq<char>) -> bool {
    password.len() == PASSWORD_LENGTH && forall|i: int|
        0 <= i < password.len() ==> is_password_char(#[trigger] password[i])
}

} // verus!

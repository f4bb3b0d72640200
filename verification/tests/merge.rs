use fizzgig::document::Payload;
use fizzgig::error::LocalLedgerErrorType;
use fizzgig::ledger::LocalLedger;
use fizzgig::merge::MergeState;
use fizzgig::root::DocImage;
use fizzgig::root::StoreRoot;

#[derive(Debug, Clone, Default, PartialEq)]
struct Note(String);

impl Payload for Note {
    fn encode(&self) -> Result<Vec<u8>, String> {
        Ok(serde_json::Value::from(self.0.clone()).to_string().into_bytes())
    }

    fn decode(bytes: &Vec<u8>) -> Result<Self, String> {
        let value: serde_json::Value = serde_json::from_slice(bytes).map_err(|e| e.to_string())?;
        Ok(Note(value.as_str().ok_or("expected a string".to_string())?.to_string()))
    }

    fn blank() -> Self {
        Note::default()
    }
}

fn empty_root() -> StoreRoot {
    StoreRoot::new("/home/someone/.fizzgig")
}

fn foreign(uuid: &str, revs: &[&str]) -> DocImage {
    let (rev, history) = revs.split_last().unwrap();
    DocImage {
        label: "Users".to_string(),
        uuid: uuid.to_string(),
        rev: rev.to_string(),
        data: b"\"\"".to_vec(),
        seq: revs.len() as i64,
        encrypted_data: vec![9, 9, 9],
        encrypted: true,
        has_been_decrypted: false,
        rev_history: history.iter().map(|r| r.to_string()).collect(),
    }
}

fn same(a: &DocImage, b: &DocImage) -> bool {
    a.label == b.label
        && a.uuid == b.uuid
        && a.rev == b.rev
        && a.data == b.data
        && a.seq == b.seq
        && a.encrypted_data == b.encrypted_data
        && a.encrypted == b.encrypted
        && a.has_been_decrypted == b.has_been_decrypted
        && a.rev_history == b.rev_history
}

#[test]
fn merge_of_the_ledgers_own_dump_succeeds() {
    let mut root = empty_root();
    let mut ledger = LocalLedger::<Note>::new(&mut root, "Users", "password".to_owned()).unwrap();
    ledger.create(&mut root, Note("first".to_string()), "one").unwrap();
    let before = ledger.list_entry_labels(&root).unwrap();
    let one_before = root.read_file("Users", "one").unwrap();

    let mut files_before = root.list_stems("Users").unwrap();
    files_before.sort();

    let dump = ledger.doc_dump(&root).unwrap();
    assert_eq!(dump.len(), 2);
    ledger.merge(&mut root, &dump).unwrap();

    let mut files_after = root.list_stems("Users").unwrap();
    files_after.sort();
    assert_eq!(files_after, files_before);
    assert!(!root.dir_exists("Users_conflicts"));
    let mut after = ledger.list_entry_labels(&root).unwrap();
    after.sort();
    assert_eq!(after, before);
    assert!(ledger.list_entries_with_conflicts(&root).unwrap().is_empty());
    let one_after = root.read_file("Users", "one").unwrap();
    assert_eq!(one_after.seq, one_before.seq + 1);
    assert_eq!(one_after.rev_history, vec![one_before.rev.clone()]);
    let mut reopened =
        LocalLedger::<Note>::new(&mut root, "Users", "password".to_owned()).unwrap();
    assert_eq!(reopened.read(&root, "one".to_string()).unwrap(), Note("first".to_string()));
}

#[test]
fn merge_quarantines_every_conflicting_document() {
    let mut root = empty_root();
    let mut ledger = LocalLedger::<Note>::new(&mut root, "Users", "password".to_owned()).unwrap();
    ledger.create(&mut root, Note("mine".to_string()), "a").unwrap();
    let local = root.read_file("Users", "a").unwrap();

    let incoming = vec![foreign("a", &["r1", "r2"])];
    ledger.merge(&mut root, &incoming).unwrap();

    assert!(same(&root.read_file("Users", "a").unwrap(), &local));
    let sibling = root.read_file("Users_conflicts", "a__conflict").unwrap();
    assert_eq!(sibling.rev, "r2");
    assert_eq!(sibling.rev_history, vec!["r1".to_string()]);
    assert_eq!(sibling.label, "Users_conflicts");
    assert_eq!(sibling.uuid, "a__conflict");
    assert_eq!(ledger.list_entries_with_conflicts(&root).unwrap(), vec!["a".to_string()]);
    assert_eq!(ledger.list_entry_labels(&root).unwrap(), vec!["a".to_string()]);
}

#[test]
fn merge_with_a_foreign_metadata_document_is_rolled_back() {
    let mut root = empty_root();
    let mut ledger = LocalLedger::<Note>::new(&mut root, "Users", "B".to_owned()).unwrap();
    ledger.create(&mut root, Note("mine".to_string()), "a").unwrap();
    let local = root.read_file("Users", "a").unwrap();
    let meta = root.read_file("Users", "META_DOC").unwrap();

    let mut peer_meta = foreign("META_DOC", &["peer-rev"]);
    peer_meta.encrypted = false;
    let incoming = vec![foreign("a", &["x"]), foreign("new", &["n1"]), peer_meta, foreign("z", &["z1"])];
    let err = ledger.merge(&mut root, &incoming).unwrap_err();

    assert_eq!(err.err_type, LocalLedgerErrorType::MetaDocConflict);
    assert_eq!(err.message, "META_DOC conflict found during merge.");
    assert!(same(&root.read_file("Users", "a").unwrap(), &local));
    assert!(same(&root.read_file("Users", "META_DOC").unwrap(), &meta));
    assert!(!root.file_exists("Users", "new__temp"));
    assert!(!root.file_exists("Users", "new"));
    assert!(!root.file_exists("Users", "z"));
    assert!(!root.file_exists("Users_conflicts", "a__conflict"));
    let mut labels = ledger.list_entry_labels(&root).unwrap();
    labels.sort();
    assert_eq!(labels, vec!["a".to_string()]);
}

#[test]
fn merge_sets_documents_aside_until_the_metadata_is_stored() {
    let mut root = empty_root();
    let ledger = LocalLedger::<Note>::new(&mut root, "Users", "password".to_owned()).unwrap();
    let mut state = MergeState::new();
    ledger.merge_doc(&mut root, &mut state, foreign("n", &["n1"])).unwrap();
    assert!(!state.meta_stored);
    assert_eq!(state.temp_uuids, vec!["n".to_string()]);
    assert!(state.conflict_uuids.is_empty());
    let waiting = root.read_file("Users", "n__temp").unwrap();
    assert_eq!(waiting.uuid, "n__temp");
    assert_eq!(waiting.rev, "n1");
    assert!(!root.file_exists("Users", "n"));

    let meta = root.read_file("Users", "META_DOC").unwrap();
    ledger.merge_doc(&mut root, &mut state, meta).unwrap();
    assert!(state.meta_stored);
    assert_eq!(root.read_file("Users", "META_DOC").unwrap().seq, 2);

    let err = ledger.merge_end(&mut root, &state).unwrap_err();
    assert_eq!(err.err_type, LocalLedgerErrorType::Default);
    assert!(err.message.starts_with("Failed to decrypt data: "));
    assert!(root.file_exists("Users", "n__temp"));
}

#[test]
fn merge_takes_in_a_new_document_of_a_peer_with_the_same_key() {
    let mut peer_root = empty_root();
    let mut peer = LocalLedger::<Note>::new(&mut peer_root, "Users", "password".to_owned()).unwrap();
    peer.create(&mut peer_root, Note("from the peer".to_string()), "shared").unwrap();
    let meta = peer_root.read_file("Users", "META_DOC").unwrap();

    let mut root = empty_root();
    root.write_file("Users", "META_DOC", meta);
    let mut ledger = LocalLedger::<Note>::new(&mut root, "Users", "password".to_owned()).unwrap();

    let dump = peer.doc_dump(&peer_root).unwrap();
    ledger.merge(&mut root, &dump).unwrap();

    assert!(!root.file_exists("Users", "shared__temp"));
    assert_eq!(ledger.read(&root, "shared".to_string()).unwrap(), Note("from the peer".to_string()));
    let stored = root.read_file("Users", "shared").unwrap();
    assert_eq!(stored.seq, 2);
    let theirs = peer_root.read_file("Users", "shared").unwrap();
    assert_eq!(stored.rev_history, vec![theirs.rev]);
    assert_ne!(stored.encrypted_data, theirs.encrypted_data);
}

fn to_json(image: &DocImage) -> Vec<u8> {
    let mut fields = serde_json::Map::new();
    let data: serde_json::Value = serde_json::from_slice(&image.data).unwrap();
    fields.insert("label".to_string(), serde_json::Value::from(image.label.clone()));
    fields.insert("uuid".to_string(), serde_json::Value::from(image.uuid.clone()));
    fields.insert("rev".to_string(), serde_json::Value::from(image.rev.clone()));
    fields.insert("data".to_string(), data);
    fields.insert("seq".to_string(), serde_json::Value::from(image.seq));
    fields.insert("encrypted_data".to_string(), serde_json::Value::from(image.encrypted_data.clone()));
    fields.insert("encrypted".to_string(), serde_json::Value::from(image.encrypted));
    fields.insert("has_been_decrypted".to_string(), serde_json::Value::from(image.has_been_decrypted));
    fields.insert("rev_history".to_string(), serde_json::Value::from(image.rev_history.clone()));
    serde_json::Value::Object(fields).to_string().into_bytes()
}

fn from_json(record: &[u8]) -> DocImage {
    let value: serde_json::Value = serde_json::from_slice(record).unwrap();
    let text = |key: &str| value[key].as_str().unwrap().to_string();
    DocImage {
        label: text("label"),
        uuid: text("uuid"),
        rev: text("rev"),
        data: value["data"].to_string().into_bytes(),
        seq: value["seq"].as_i64().unwrap(),
        encrypted_data: value["encrypted_data"]
            .as_array()
            .unwrap()
            .iter()
            .map(|b| b.as_u64().unwrap() as u8)
            .collect(),
        encrypted: value["encrypted"].as_bool().unwrap(),
        has_been_decrypted: value["has_been_decrypted"].as_bool().unwrap(),
        rev_history: value["rev_history"]
            .as_array()
            .unwrap()
            .iter()
            .map(|r| r.as_str().unwrap().to_string())
            .collect(),
    }
}

#[test]
fn relay_round_trip_carries_a_dump_into_a_merge() {
    let mut sender_root = empty_root();
    let mut sender =
        LocalLedger::<Note>::new(&mut sender_root, "Users", "password".to_owned()).unwrap();
    sender.create(&mut sender_root, Note("hello".to_string()), "employee-1").unwrap();
    let sent = sender.doc_dump(&sender_root).unwrap();
    let files: Vec<Vec<u8>> = sent.iter().map(to_json).collect();

    let mut jobs = fizzgig::relay::SyncJobs::new();
    let pin = fizzgig::ident::generate_pin();
    jobs.reserve_pin(&pin, "1234").unwrap();
    let mut dump = fizzgig::ledger_dump::LedgerDump::new(files.clone());
    let body: Vec<u8> = fizzgig::sdk::read_chunks(&mut dump).concat();
    jobs.push_s(&pin, body).unwrap();

    let pulled = jobs.pull(&pin, "1234").unwrap();
    assert_eq!(pulled, files.join(&b'\n'));
    // No newline follows the last record, so the cutter keeps it back
    // until one arrives.
    assert_eq!(fizzgig::pull_stream::parse_records(pulled.clone()), files[..1].to_vec());
    let mut stream = fizzgig::pull_stream::PullStream::new();
    stream.supply(pulled);
    stream.supply(b"\n".to_vec());
    let mut records: Vec<Vec<u8>> = Vec::new();
    while let fizzgig::pull_stream::PullStep::Record(record) = stream.next_record() {
        records.push(record);
    }
    assert_eq!(records, files);
    let incoming: Vec<DocImage> = records.iter().map(|r| from_json(r)).collect();

    let mut receiver_root = empty_root();
    receiver_root.write_file("Users", "META_DOC", sender_root.read_file("Users", "META_DOC").unwrap());
    let mut receiver =
        LocalLedger::<Note>::new(&mut receiver_root, "Users", "password".to_owned()).unwrap();
    receiver.merge(&mut receiver_root, &incoming).unwrap();

    let received = receiver.list_entry_labels(&receiver_root).unwrap();
    for name in sender.list_entry_labels(&sender_root).unwrap() {
        assert!(received.contains(&name));
    }
    assert_eq!(
        receiver.read(&receiver_root, "employee-1".to_string()).unwrap(),
        Note("hello".to_string())
    );
}

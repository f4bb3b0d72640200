use fizzgig::document::Payload;
use fizzgig::ident::generate_id;
use fizzgig::ident::generate_pin;
use fizzgig::ledger_dump::LedgerDump;
use fizzgig::pull_stream::parse_records;
use fizzgig::relay::SyncJobs;
use fizzgig::root::DocImage;
use fizzgig::root::StoreRoot;
use fizzgig::sdk::read_chunks;
use fizzgig::shell::entry_meta_data;
use fizzgig::shell::ConfPair;
use fizzgig::shell::LocalLedgerAnswer;
use fizzgig::shell::LocalLedgerMessage;
use fizzgig::shell::LocalLedgerWorker;
use fizzgig::shell::LocalLedgerWorkerErr;
use fizzgig::shell::PasswordLedgerHandler;
use fizzgig::shell::SavedPassword;

fn empty_root() -> StoreRoot {
    StoreRoot::new("/home/someone/.fizzgig")
}

#[test]
fn handler_refuses_everything_until_it_is_started() {
    let mut root = empty_root();
    let mut handler = PasswordLedgerHandler::new();
    let not_started = "Ledger has not been started".to_string();
    assert_eq!(handler.add_entry(&mut root, "a", "pw"), Err(not_started.clone()));
    assert_eq!(handler.update_entry(&mut root, "a", "pw"), Err(not_started.clone()));
    assert_eq!(handler.remove_entry(&mut root, "a"), Err(not_started.clone()));
    assert_eq!(handler.get_pw(&root, "a"), Err(not_started.clone()));
    assert_eq!(handler.get_ledger_dir(&root), Err(not_started.clone()));
    assert_eq!(handler.resolve(&mut root, "a", true), Err(not_started.clone()));
    assert_eq!(handler.get_conf_pair(&root, "a"), Err(not_started.clone()));
    assert_eq!(handler.merge(&mut root, &Vec::new()), Err(not_started.clone()));
    assert_eq!(handler.list_entry_meta_data(&root).err(), Some(not_started.clone()));
    assert_eq!(handler.get_doc_dump(&root).err(), Some(not_started));
    assert!(!root.dir_exists("Password_Ledger"));
}

fn to_json(image: &DocImage) -> Vec<u8> {
    let mut fields = serde_json::Map::new();
    let data: serde_json::Value = serde_json::from_slice(&image.data).unwrap();
    fields.insert("label".to_string(), serde_json::Value::from(image.label.clone()));
    fields.insert("uuid".to_string(), serde_json::Value::from(image.uuid.clone()));
    fields.insert("rev".to_string(), serde_json::Value::from(image.rev.clone()));
    fields.insert("data".to_string(), data);
    fields.insert("seq".to_string(), serde_json::Value::from(image.seq));
    fields.insert("encrypted_data".to_string(), serde_json::Value::from(image.encrypted_data.clone()));
    fields.insert("encrypted".to_string(), serde_json::Value::from(image.encrypted));
    fields.insert("has_been_decrypted".to_string(), serde_json::Value::from(image.has_been_decrypted));
    fields.insert("rev_history".to_string(), serde_json::Value::from(image.rev_history.clone()));
    serde_json::Value::Object(fields).to_string().into_bytes()
}

fn from_json(record: &[u8]) -> DocImage {
    let value: serde_json::Value = serde_json::from_slice(record).unwrap();
    let text = |key: &str| value[key].as_str().unwrap().to_string();
    DocImage {
        label: text("label"),
        uuid: text("uuid"),
        rev: text("rev"),
        data: value["data"].to_string().into_bytes(),
        seq: value["seq"].as_i64().unwrap(),
        encrypted_data: value["encrypted_data"]
            .as_array()
            .unwrap()
            .iter()
            .map(|b| b.as_u64().unwrap() as u8)
            .collect(),
        encrypted: value["encrypted"].as_bool().unwrap(),
        has_been_decrypted: value["has_been_decrypted"].as_bool().unwrap(),
        rev_history: value["rev_history"]
            .as_array()
            .unwrap()
            .iter()
            .map(|r| r.as_str().unwrap().to_string())
            .collect(),
    }
}

#[test]
fn should_be_able_to_sync_with_server() {
    let mut root = empty_root();
    let mut jobs = SyncJobs::new();

    let master_pw = "password".to_string();
    let mut pl = PasswordLedgerHandler::new();
    let entry_name = generate_id();

    pl.start(&mut root, &master_pw).unwrap();
    pl.add_entry(&mut root, &entry_name, "test1234").unwrap();
    let files: Vec<Vec<u8>> = pl.get_doc_dump(&root).unwrap().iter().map(to_json).collect();
    let mut dump = LedgerDump::new(files);

    let temp_pw = "1234".to_string();
    let pin = generate_pin();
    jobs.reserve_pin(&pin, &temp_pw).unwrap();
    jobs.push_s(&pin, read_chunks(&mut dump).concat()).unwrap();
    let ps: Vec<DocImage> =
        parse_records(jobs.pull(&pin, &temp_pw).unwrap()).iter().map(|r| from_json(r)).collect();

    pl.merge(&mut root, &ps).unwrap();

    // No newline follows the last record of the dump, so it is not handed out.
    assert_eq!(ps.len(), 1);
    assert_eq!(ps[0].uuid, "META_DOC");
    assert_eq!(pl.get_pw(&root, &entry_name), Ok("test1234".to_string()));
    let listed = pl.list_entry_meta_data(&root).unwrap();
    assert_eq!(listed.len(), 1);
    assert_eq!(listed[0].label, entry_name);
    assert!(!listed[0].has_conflict);
    assert_eq!(pl.get_ledger_dir(&root), Ok("/home/someone/.fizzgig/Password_Ledger".to_string()));
}

#[test]
fn handler_surfaces_the_ledgers_messages() {
    let mut root = empty_root();
    let mut handler = PasswordLedgerHandler::new();
    handler.start(&mut root, "master").unwrap();
    handler.start(&mut root, "ignored once started").unwrap();
    assert_eq!(handler.add_entry(&mut root, "", "pw"), Err("Label cannot be empty".to_string()));
    handler.add_entry(&mut root, "mail", "pw-1").unwrap();
    assert_eq!(handler.add_entry(&mut root, "mail", "x"), Err("Labels must be unique".to_string()));
    handler.update_entry(&mut root, "mail", "pw-2").unwrap();
    assert_eq!(handler.get_pw(&root, "mail"), Ok("pw-2".to_string()));
    assert_eq!(
        handler.update_entry(&mut root, "nope", "x"),
        Err("Entry name not found".to_string())
    );
    handler.remove_entry(&mut root, "mail").unwrap();
    assert!(handler.list_entry_meta_data(&root).unwrap().is_empty());

    let mut other = PasswordLedgerHandler::new();
    assert_eq!(other.start(&mut root, "not the master"), Err("Incorrect password".to_string()));
}

#[test]
fn entries_come_before_the_entries_in_conflict() {
    let listed = entry_meta_data(
        vec!["a".to_string(), "b".to_string()],
        vec!["b".to_string()],
    );
    let flat: Vec<(String, bool)> =
        listed.into_iter().map(|e| (e.label, e.has_conflict)).collect();
    assert_eq!(
        flat,
        vec![("a".to_string(), false), ("b".to_string(), false), ("b".to_string(), true)]
    );
    assert!(entry_meta_data(Vec::new(), Vec::new()).is_empty());
}

#[test]
fn saved_password_round_trips_through_the_interchange_format() {
    let saved = SavedPassword { pw: "p\"w\\\n".to_string(), name: "www.example.com".to_string() };
    let bytes = saved.encode().unwrap();
    assert_eq!(
        String::from_utf8(bytes.clone()).unwrap(),
        "{\"name\":\"www.example.com\",\"pw\":\"p\\\"w\\\\\\n\"}"
    );
    let back = SavedPassword::decode(&bytes).unwrap();
    assert_eq!(back.pw, saved.pw);
    assert_eq!(back.name, saved.name);
    assert!(SavedPassword::decode(&b"{\"pw\":\"x\"}".to_vec()).is_err());
    assert!(SavedPassword::decode(&b"not json".to_vec()).is_err());
    assert_eq!(SavedPassword::blank().encode().unwrap(), b"{\"name\":\"\",\"pw\":\"\"}".to_vec());
    let pair = ConfPair { local_pw: "l".to_string(), remote_pw: "r".to_string() };
    assert_ne!(pair.local_pw, pair.remote_pw);
}

#[test]
fn worker_answers_by_kind() {
    let mut root = empty_root();
    let mut worker = LocalLedgerWorker::new();
    match worker.handle_msg(&mut root, LocalLedgerMessage::List) {
        LocalLedgerAnswer::Labels(Err(LocalLedgerWorkerErr::ListEntriesErr(text))) => {
            assert_eq!(text, "LocalLedgerWorker has not been started")
        }
        other => panic!("unexpected answer {:?}", other),
    }
    match worker.handle_msg(
        &mut root,
        LocalLedgerMessage::AddEntry { entry_name: "a".to_string(), pw: "p".to_string() },
    ) {
        LocalLedgerAnswer::Done(Err(LocalLedgerWorkerErr::AddEntryErr(text))) => {
            assert_eq!(text, "LocalLedgerWorker has not been started.")
        }
        other => panic!("unexpected answer {:?}", other),
    }
    match worker.handle_msg(
        &mut root,
        LocalLedgerMessage::Start { ledger_name: "W".to_string(), master_pw: "m".to_string() },
    ) {
        LocalLedgerAnswer::Done(Ok(())) => {}
        other => panic!("unexpected answer {:?}", other),
    }
    match worker.handle_msg(
        &mut root,
        LocalLedgerMessage::AddEntry { entry_name: "a".to_string(), pw: "p".to_string() },
    ) {
        LocalLedgerAnswer::Done(Ok(())) => {}
        other => panic!("unexpected answer {:?}", other),
    }
    match worker.handle_msg(&mut root, LocalLedgerMessage::GetEntry { entry_name: "a".to_string() }) {
        LocalLedgerAnswer::Entry(Ok(pw)) => assert_eq!(pw, "p"),
        other => panic!("unexpected answer {:?}", other),
    }
    match worker.handle_msg(&mut root, LocalLedgerMessage::List) {
        LocalLedgerAnswer::Labels(Ok(labels)) => assert_eq!(labels, vec!["a".to_string()]),
        other => panic!("unexpected answer {:?}", other),
    }
    match worker.handle_msg(&mut root, LocalLedgerMessage::GetLedgerDir) {
        LocalLedgerAnswer::Dir(Ok(dir)) => assert_eq!(dir, "/home/someone/.fizzgig/W"),
        other => panic!("unexpected answer {:?}", other),
    }
    match worker.handle_msg(&mut root, LocalLedgerMessage::GetLedgerContent) {
        LocalLedgerAnswer::Content(Ok(images)) => assert_eq!(images.len(), 2),
        other => panic!("unexpected answer {:?}", other),
    }
    match worker.handle_msg(&mut root, LocalLedgerMessage::RemoveEntry { entry_name: "zz".to_string() }) {
        LocalLedgerAnswer::Done(Err(LocalLedgerWorkerErr::GetEntryErr(text))) => {
            assert_eq!(text, "Failed to remove doc: zz")
        }
        other => panic!("unexpected answer {:?}", other),
    }
    assert_eq!(LocalLedgerWorkerErr::StartErr("boom".to_string()).to_string(), "boom");
}

fn handler_in_conflict_over_mail(root: &mut StoreRoot) -> PasswordLedgerHandler {
    let mut handler = PasswordLedgerHandler::new();
    handler.start(root, "master").unwrap();
    handler.add_entry(root, "mail", "local-pw").unwrap();

    let mut peer_root = empty_root();
    let meta = root.read_file("Password_Ledger", "META_DOC").unwrap();
    peer_root.write_file("Password_Ledger", "META_DOC", meta);
    let mut peer = PasswordLedgerHandler::new();
    peer.start(&mut peer_root, "master").unwrap();
    peer.add_entry(&mut peer_root, "mail", "remote-pw").unwrap();
    let dump = peer.get_doc_dump(&peer_root).unwrap();

    handler.merge(root, &dump).unwrap();
    handler
}

#[test]
fn keeping_the_incoming_version_promotes_the_conflict_sibling() {
    let mut root = empty_root();
    let mut handler = handler_in_conflict_over_mail(&mut root);
    let listed = handler.list_entry_meta_data(&root).unwrap();
    let flat: Vec<(String, bool)> = listed.into_iter().map(|e| (e.label, e.has_conflict)).collect();
    assert_eq!(flat, vec![("mail".to_string(), false), ("mail".to_string(), true)]);

    handler.resolve(&mut root, "mail", false).unwrap();
    assert_eq!(handler.get_pw(&root, "mail"), Ok("remote-pw".to_string()));
    assert!(!root.file_exists("Password_Ledger_conflicts", "mail__conflict"));
    assert_eq!(handler.list_entry_meta_data(&root).unwrap().len(), 1);
}

#[test]
fn keeping_the_local_version_discards_the_conflict_sibling() {
    let mut root = empty_root();
    let mut handler = handler_in_conflict_over_mail(&mut root);
    assert_eq!(
        handler.get_conf_pair(&root, "mail"),
        Ok(("local-pw".to_string(), "remote-pw".to_string()))
    );
    handler.resolve(&mut root, "mail", true).unwrap();
    assert!(!root.file_exists("Password_Ledger_conflicts", "mail__conflict"));
    assert_eq!(handler.get_pw(&root, "mail"), Ok("local-pw".to_string()));
    assert_eq!(
        handler.resolve(&mut root, "mail", true),
        Err("Document not found: mail__conflict".to_string())
    );
}

#[test]
fn generated_passwords_have_twenty_characters() {
    let a = fizzgig::shell::generate_pw().unwrap();
    let b = fizzgig::shell::generate_pw().unwrap();
    assert_eq!(a.chars().count(), 20);
    assert_eq!(b.chars().count(), 20);
    assert_ne!(a, b);
    for _ in 0..200 {
        let password = fizzgig::shell::generate_pw().unwrap();
        assert_eq!(password.chars().count(), 20);
        for c in password.chars() {
            assert!(c.is_ascii_alphanumeric() || c.is_ascii_punctuation());
            assert!(!"iI1loO0\"'`| ".contains(c));
        }
    }
}

#[test]
fn regen_replaces_the_password_of_an_entry() {
    let mut root = empty_root();
    let mut handler = PasswordLedgerHandler::new();
    assert!(handler.regen_pw(&mut root, "mail").is_err());
    handler.start(&mut root, "master").unwrap();
    handler.add_entry(&mut root, "mail", "old").unwrap();
    handler.regen_pw(&mut root, "mail").unwrap();
    let pw = handler.get_pw(&root, "mail").unwrap();
    assert_eq!(pw.chars().count(), 20);
    assert_eq!(handler.regen_pw(&mut root, "nope"), Err("Entry name not found".to_string()));
}

#[test]
fn worker_names_the_failure_by_its_kind() {
    let mut root = empty_root();
    let mut worker = LocalLedgerWorker::new();
    match worker.handle_msg(&mut root, LocalLedgerMessage::GetLedgerContent) {
        LocalLedgerAnswer::Content(Err(LocalLedgerWorkerErr::GetLedgerContent(text))) => {
            assert_eq!(text, "LocalLedgerWorker has not been started")
        }
        other => panic!("unexpected answer {:?}", other),
    }
    match worker.handle_msg(&mut root, LocalLedgerMessage::GetLedgerDir) {
        LocalLedgerAnswer::Dir(Err(LocalLedgerWorkerErr::GetEntryErr(text))) => {
            assert_eq!(text, "LocalLedgerWorker has not been started")
        }
        other => panic!("unexpected answer {:?}", other),
    }
    let start = |pw: &str| LocalLedgerMessage::Start {
        ledger_name: "W".to_string(),
        master_pw: pw.to_string(),
    };
    match worker.handle_msg(&mut root, start("right")) {
        LocalLedgerAnswer::Done(Ok(())) => {}
        other => panic!("unexpected answer {:?}", other),
    }
    match worker.handle_msg(&mut root, start("wrong")) {
        LocalLedgerAnswer::Done(Err(LocalLedgerWorkerErr::StartErr(text))) => {
            assert_eq!(text, "Incorrect password")
        }
        other => panic!("unexpected answer {:?}", other),
    }
    match worker.handle_msg(
        &mut root,
        LocalLedgerMessage::UpdateEntry { entry_name: "none".to_string(), pw: "p".to_string() },
    ) {
        LocalLedgerAnswer::Done(Err(LocalLedgerWorkerErr::GetEntryErr(text))) => {
            assert_eq!(text, "Entry name not found")
        }
        other => panic!("unexpected answer {:?}", other),
    }
    assert_eq!(LocalLedgerWorkerErr::ResponseErr("gone".to_string()).to_string(), "gone");
}

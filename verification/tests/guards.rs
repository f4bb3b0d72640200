use fizzgig::cipher::is_printable;
use fizzgig::cipher::password_matches;
use fizzgig::document::Document;
use fizzgig::document::Payload;
use fizzgig::error::LocalLedgerErrorType;
use fizzgig::ledger::LocalLedger;
use fizzgig::ledger::LocalLedgerMetaData;
use fizzgig::ledger_dump::LedgerDump;
use fizzgig::merge::MergeState;
use fizzgig::relay::get_app_config;
use fizzgig::root::DocImage;
use fizzgig::root::StoreRoot;
use fizzgig::token::claims_of;
use fizzgig::token::gen_jwt;
use fizzgig::token::validate_jwt;
use fizzgig::token::OpenedToken;

#[derive(Debug, Clone, Default, PartialEq)]
struct Memo(String);

impl Payload for Memo {
    fn encode(&self) -> Result<Vec<u8>, String> {
        Ok(serde_json::Value::from(self.0.clone()).to_string().into_bytes())
    }

    fn decode(bytes: &Vec<u8>) -> Result<Self, String> {
        let value: serde_json::Value = serde_json::from_slice(bytes).map_err(|e| e.to_string())?;
        Ok(Memo(value.as_str().ok_or("expected a string".to_string())?.to_string()))
    }

    fn blank() -> Self {
        Memo::default()
    }
}

fn fresh_root() -> StoreRoot {
    StoreRoot::new("/home/someone/.fizzgig")
}

fn now() -> u64 {
    std::time::SystemTime::now().duration_since(std::time::UNIX_EPOCH).unwrap().as_secs()
}

fn meta_image(hash_json: &str) -> DocImage {
    DocImage {
        label: "Users".to_string(),
        uuid: "META_DOC".to_string(),
        rev: "R1".to_string(),
        data: hash_json.as_bytes().to_vec(),
        seq: 1,
        encrypted_data: Vec::new(),
        encrypted: false,
        has_been_decrypted: false,
        rev_history: Vec::new(),
    }
}

#[test]
fn printable_texts_are_told_apart() {
    assert!(is_printable(""));
    assert!(is_printable("$2b$10$abcdefghijklmnopqrstuv ~"));
    assert!(!is_printable("$2b$10$abc\ndef"));
    assert!(!is_printable("\u{1f}"));
    assert!(!is_printable("\u{7f}"));
    assert!(!is_printable("\u{80}"));
    assert!(!is_printable("caf\u{e9}"));
}

#[test]
fn a_hash_that_is_not_printable_accepts_nothing() {
    assert!(!password_matches("password", "$2b$10$\u{1}bcdefghijklmnopqrstu0123456789"));
    assert!(!password_matches("password", "$2b$10$\u{80}bcdefghijklmnopqrst0123456789"));
    assert!(!password_matches("", "\t"));
}

#[test]
fn a_hash_is_accepted_for_its_password_only() {
    let mut root = fresh_root();
    let _ledger = LocalLedger::<Memo>::new(&mut root, "Users", "password".to_owned()).unwrap();
    let meta = Document::<LocalLedgerMetaData>::load(&root, "Users", "META_DOC").unwrap();
    let hash = meta.read_data().unwrap().pw_hash.clone();

    assert!(is_printable(&hash));
    assert!(password_matches("password", &hash));
    assert!(!password_matches("Password", &hash));
}

#[test]
fn a_damaged_hash_refuses_the_ledger() {
    let mut root = fresh_root();
    root.write_file("Users", "META_DOC", meta_image("{\"pw_hash\":\"$2b$10$\\u0001\\u0002cdefghijklmnopqrstuvwxyz\"}"));
    let before = root.read_file("Users", "META_DOC").unwrap();

    let err = LocalLedger::<Memo>::new(&mut root, "Users", "password".to_owned()).err().unwrap();

    assert_eq!(err.to_string(), "Incorrect password");
    assert_eq!(err.err_type, LocalLedgerErrorType::Default);
    assert_eq!(root.read_file("Users", "META_DOC").unwrap().rev, before.rev);
}

#[test]
fn a_read_never_spans_two_files() {
    let mut dump = LedgerDump::new(vec![b"abc".to_vec(), b"de".to_vec(), Vec::new(), b"f".to_vec()]);

    assert_eq!(dump.read(2), b"ab".to_vec());
    assert_eq!(dump.read(100), b"c".to_vec());
    assert_eq!(dump.read(100), Vec::<u8>::new());
    assert_eq!(dump.read(100), b"\n".to_vec());
    assert_eq!(dump.read(100), b"de".to_vec());
    assert_eq!(dump.read(100), Vec::<u8>::new());
    assert_eq!(dump.read(100), b"\n".to_vec());
    assert_eq!(dump.read(100), Vec::<u8>::new());
    assert_eq!(dump.read(100), b"\n".to_vec());
    assert_eq!(dump.read(100), b"f".to_vec());
    assert_eq!(dump.read(100), Vec::<u8>::new());
    assert_eq!(dump.read(100), Vec::<u8>::new());
}

#[test]
fn a_revision_in_the_chain_is_told() {
    let mut root = fresh_root();
    let mut doc = Document::<Memo>::new("Notes");
    assert!(doc.chain_holds(&String::new()));
    assert!(!doc.chain_holds(&"A".to_string()));

    doc.store_as(&mut root, "A".to_string(), b"\"\"".to_vec()).unwrap();
    doc.store_as(&mut root, "B".to_string(), b"\"\"".to_vec()).unwrap();

    assert!(doc.chain_holds(&"A".to_string()));
    assert!(doc.chain_holds(&"B".to_string()));
    assert!(!doc.chain_holds(&"C".to_string()));
    assert!(!doc.chain_holds(&String::new()));

    assert_eq!(doc.accept_revision("C".to_string()).unwrap(), "C");
    let stale = doc.accept_revision("A".to_string()).err().unwrap();
    assert_eq!(stale.to_string(), "Document revision is not new");
    assert_eq!(stale.err_type, LocalLedgerErrorType::Default);

    let drawn = doc.draw_revision().unwrap();
    assert_eq!(drawn.len(), 32);
    assert!(!doc.chain_holds(&drawn));
}

#[test]
fn stored_revisions_are_pairwise_distinct() {
    let mut root = fresh_root();
    let mut doc = Document::<Memo>::new("Notes");
    let mut revs: Vec<String> = Vec::new();

    for i in 0..5 {
        doc.update(Memo(format!("text {}", i)));
        doc.store(&mut root).unwrap();
        revs.push(doc.rev().to_string());
    }

    let loaded = Document::<Memo>::load(&root, "Notes", doc.read_uuid()).unwrap();
    assert_eq!(loaded.seq(), 5);
    assert_eq!(loaded.rev(), revs[4]);
    assert_eq!(loaded.rev_history(), &revs[..4].to_vec());
    assert_eq!(loaded.read_data().unwrap(), &Memo("text 4".to_string()));
    for i in 0..revs.len() {
        for j in 0..i {
            assert_ne!(revs[i], revs[j]);
        }
    }
}

#[test]
fn try_load_gives_what_load_gives() {
    let mut root = fresh_root();
    let mut doc = Document::<Memo>::new_alt("Notes", "n1");
    doc.update(Memo("kept".to_string()));
    doc.store(&mut root).unwrap();

    let tried = Document::<Memo>::try_load(&mut root, "Notes", "n1").unwrap();
    let loaded = Document::<Memo>::load(&root, "Notes", "n1").unwrap();
    assert_eq!(tried.read_data().unwrap(), loaded.read_data().unwrap());
    assert_eq!(tried.rev(), loaded.rev());
    assert_eq!(tried.seq(), 1);

    assert!(Document::<Memo>::try_load(&mut root, "Notes", "absent").is_none());
    assert!(Document::<Memo>::try_load(&mut root, "Elsewhere", "n1").is_none());
    assert!(root.dir_exists("Elsewhere"));

    let mut image = root.read_file("Notes", "n1").unwrap();
    image.data = b"{not json".to_vec();
    root.write_file("Notes", "n2", image);
    assert!(Document::<Memo>::try_load(&mut root, "Notes", "n2").is_none());
}

#[test]
fn new_documents_hold_the_default_payload() {
    let doc = Document::<Memo>::new("Notes");
    assert_eq!(doc.data_in_memory(), &Memo::default());
    let alt = Document::<Memo>::new_alt("Notes", "abc");
    assert_eq!(alt.read_data().unwrap(), &Memo::default());
    assert_eq!(alt.get_uuid(), "abc");
}

#[test]
fn a_read_gives_the_payload_that_decodes() {
    let mut root = fresh_root();
    let mut ledger = LocalLedger::<Memo>::new(&mut root, "Users", "password".to_owned()).unwrap();
    ledger.create(&mut root, Memo("first".to_string()), "one").unwrap();

    assert_eq!(ledger.read(&root, "one".to_string()).unwrap(), Memo("first".to_string()));
    assert_eq!(ledger.read_by_entry_name(&root, "one").unwrap(), Memo("first".to_string()));

    let file = root.read_file("Users", "one").unwrap();
    assert!(file.encrypted);
    assert_eq!(file.data, b"\"\"".to_vec());
}

#[test]
fn an_opened_document_is_kept_only_if_it_decodes() {
    let mut root = fresh_root();
    let mut ledger = LocalLedger::<Memo>::new(&mut root, "Users", "password".to_owned()).unwrap();
    let image = meta_image("{}");

    let refused = ledger.keep_opened("x", image.duplicate(), b"12".to_vec(), &Err("bad".to_string()));
    assert_eq!(refused.err().unwrap().to_string(), "Failed to parse decrypted data: bad");

    let kept = ledger
        .keep_opened("x", image, b"\"t\"".to_vec(), &Ok(Memo("t".to_string())))
        .unwrap();
    assert_eq!(kept.data, b"\"t\"".to_vec());
    assert!(kept.has_been_decrypted);

    assert_eq!(
        LocalLedger::<Memo>::payload_result(Ok(Memo("t".to_string()))).unwrap(),
        Memo("t".to_string())
    );
    assert_eq!(
        LocalLedger::<Memo>::payload_result(Err("why".to_string())).err().unwrap().to_string(),
        "Failed to parse decrypted data: why"
    );
}

#[test]
fn entries_are_listed_once() {
    let mut root = fresh_root();
    let mut ledger = LocalLedger::<Memo>::new(&mut root, "Users", "password".to_owned()).unwrap();
    ledger.create(&mut root, Memo("a".to_string()), "a").unwrap();
    ledger.create(&mut root, Memo("b".to_string()), "b").unwrap();
    ledger.update(&mut root, "a", Memo("a2".to_string())).unwrap();
    ledger.remove(&mut root, "b").unwrap();
    ledger.create(&mut root, Memo("b".to_string()), "b").unwrap();

    let mut labels = ledger.list_entry_labels(&root).unwrap();
    labels.sort();
    assert_eq!(labels, vec!["a".to_string(), "b".to_string()]);
}

#[test]
fn a_metadata_document_without_a_hash_is_refused() {
    let mut root = fresh_root();
    let ledger = LocalLedger::<Memo>::new(&mut root, "Users", "password".to_owned()).unwrap();
    let own = root.read_file("Users", "META_DOC").unwrap();
    let mut incoming = own.duplicate();
    incoming.data = b"{}".to_vec();
    let mut state = MergeState::new();

    let err = ledger.merge_doc(&mut root, &mut state, incoming).err().unwrap();

    assert_eq!(err.to_string(), "missing field `pw_hash`");
    assert!(!state.meta_stored);
    assert_eq!(root.read_file("Users", "META_DOC").unwrap().rev, own.rev);
}

#[test]
fn a_matching_metadata_document_is_stored_under_a_new_revision() {
    let mut root = fresh_root();
    let ledger = LocalLedger::<Memo>::new(&mut root, "Users", "password".to_owned()).unwrap();
    let own = root.read_file("Users", "META_DOC").unwrap();
    let mut state = MergeState::new();

    ledger.merge_doc(&mut root, &mut state, own.duplicate()).unwrap();

    let stored = root.read_file("Users", "META_DOC").unwrap();
    assert!(state.meta_stored);
    assert_eq!(stored.seq, 2);
    assert_eq!(stored.rev_history, vec![own.rev.clone()]);
    assert_ne!(stored.rev, own.rev);
    assert_eq!(stored.data, own.data);
}

#[test]
fn a_push_token_names_its_pin() {
    let settings = get_app_config(Some("a secret".to_string()));
    let token = gen_jwt(&settings, "123456".to_string(), now()).unwrap();

    assert_eq!(token.split('.').count(), 3);
    let claims = validate_jwt(&settings, &token).unwrap();
    assert_eq!(claims.pin, "123456");
    assert!(claims.exp >= now() + 86_000);

    let again = gen_jwt(&settings, "123456".to_string(), 1_700_000_000).unwrap();
    assert_eq!(again, gen_jwt(&settings, "123456".to_string(), 1_700_000_000).unwrap());
    assert_ne!(again, gen_jwt(&settings, "654321".to_string(), 1_700_000_000).unwrap());
}

#[test]
fn a_push_token_is_refused_when_expired_or_forged() {
    let settings = get_app_config(Some("a secret".to_string()));
    let others = get_app_config(None);

    let expired = gen_jwt(&settings, "123456".to_string(), 1_000).unwrap();
    assert!(validate_jwt(&settings, &expired).is_err());

    let token = gen_jwt(&settings, "123456".to_string(), now()).unwrap();
    assert!(validate_jwt(&others, &token).is_err());
    assert!(validate_jwt(&settings, "not a token").is_err());
}

#[test]
fn claims_need_a_pin_and_an_expiry() {
    let both = claims_of(Ok(OpenedToken { pin: Some("123456".to_string()), exp: Some(7) })).unwrap();
    assert_eq!(both.pin, "123456");
    assert_eq!(both.exp, 7);
    assert_eq!(claims_of(Ok(OpenedToken { pin: None, exp: Some(7) })).unwrap_err(), "missing field `pin`");
    assert_eq!(
        claims_of(Ok(OpenedToken { pin: Some("1".to_string()), exp: None })).unwrap_err(),
        "missing field `exp`"
    );
    assert_eq!(claims_of(Err("ExpiredSignature".to_string())).unwrap_err(), "ExpiredSignature");
}

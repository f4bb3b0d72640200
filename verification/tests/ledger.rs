use std::io::Write;

use fizzgig::document::Document;
use fizzgig::document::Payload;
use fizzgig::error::LocalLedgerError;
use fizzgig::error::LocalLedgerErrorType;
use fizzgig::ledger::LocalLedger;
use fizzgig::ledger::LocalLedgerMetaData;
use fizzgig::root::StoreRoot;

#[derive(Debug, Clone, Default, PartialEq)]
struct Person {
    age: i32,
    name: String,
}

impl Payload for Person {
    fn encode(&self) -> Result<Vec<u8>, String> {
        let mut fields = serde_json::Map::new();
        fields.insert("age".to_string(), serde_json::Value::from(self.age));
        fields.insert("name".to_string(), serde_json::Value::from(self.name.clone()));
        Ok(serde_json::Value::Object(fields).to_string().into_bytes())
    }

    fn decode(bytes: &Vec<u8>) -> Result<Self, String> {
        let value: serde_json::Value = serde_json::from_slice(bytes).map_err(|e| e.to_string())?;
        let age = value.get("age").and_then(|a| a.as_i64()).ok_or("missing field `age`".to_string())?;
        let name = value.get("name").and_then(|n| n.as_str()).ok_or("missing field `name`".to_string())?;
        Ok(Person { age: age as i32, name: name.to_string() })
    }

    fn blank() -> Self {
        Person::default()
    }
}

#[derive(Debug, Clone, Default, PartialEq)]
struct SavedPassword {
    pw: String,
    name: String,
}

impl Payload for SavedPassword {
    fn encode(&self) -> Result<Vec<u8>, String> {
        let mut fields = serde_json::Map::new();
        fields.insert("pw".to_string(), serde_json::Value::from(self.pw.clone()));
        fields.insert("name".to_string(), serde_json::Value::from(self.name.clone()));
        Ok(serde_json::Value::Object(fields).to_string().into_bytes())
    }

    fn decode(bytes: &Vec<u8>) -> Result<Self, String> {
        let value: serde_json::Value = serde_json::from_slice(bytes).map_err(|e| e.to_string())?;
        let pw = value.get("pw").and_then(|a| a.as_str()).ok_or("missing field `pw`".to_string())?;
        let name = value.get("name").and_then(|n| n.as_str()).ok_or("missing field `name`".to_string())?;
        Ok(SavedPassword { pw: pw.to_string(), name: name.to_string() })
    }

    fn blank() -> Self {
        SavedPassword::default()
    }
}

fn empty_root() -> StoreRoot {
    StoreRoot::new("/home/someone/.fizzgig")
}

#[test]
fn should_check_pw_for_existing_ledgers() {
    let mut root = empty_root();
    let _initial_ledger =
        LocalLedger::<Person>::new(&mut root, "Users", "password".to_owned()).unwrap();
    let open_initial_ledger_attemp =
        LocalLedger::<Person>::new(&mut root, "Users", "wrong password".to_owned());

    let err = open_initial_ledger_attemp.err().unwrap();
    let expected_msg = "Incorrect password".to_string();

    assert_eq!(err.to_string(), expected_msg);
    assert_eq!(err.err_type, LocalLedgerErrorType::Default);
}

#[test]
fn should_be_able_to_write_to_the_ledger() {
    let person = Person { age: 21, name: "duderino".to_owned() };
    let mut root = empty_root();

    let mut user_ledger =
        LocalLedger::<Person>::new(&mut root, "Users", "password".to_owned()).unwrap();

    user_ledger.create(&mut root, person.clone(), "employee-1").expect("Failed to write to ledger");

    user_ledger.remove(&mut root, "employee-1").unwrap();
}

#[test]
fn should_be_able_to_read_ledger() {
    let person = Person { age: 21, name: "duderino".to_owned() };
    let mut root = empty_root();

    let mut user_ledger =
        LocalLedger::<Person>::new(&mut root, "Users", "password".to_owned()).unwrap();

    let uuid = user_ledger
        .create(&mut root, person.clone(), "employee-2")
        .expect("Failed to write to ledger");

    let received_data = user_ledger.read(&root, uuid).unwrap();

    assert_eq!(&received_data, &person);

    user_ledger.remove(&mut root, "employee-2").unwrap();
}

#[test]
fn should_be_able_to_read_in_sequence() {
    let person = Person { age: 21, name: "duderino".to_owned() };
    let person_1 = Person { name: "walter".to_owned(), ..person.clone() };
    let mut root = empty_root();

    let mut user_ledger =
        LocalLedger::<Person>::new(&mut root, "Users", "password".to_owned()).unwrap();

    let uuid_0 = user_ledger
        .create(&mut root, person.clone(), "employee-3")
        .expect("Failed to write to ledger");

    let received_data_0 = user_ledger.read(&root, uuid_0).unwrap();

    assert_eq!(&received_data_0, &person);

    let uuid_1 = user_ledger
        .create(&mut root, person_1.clone(), "employee-4")
        .expect("Failed to write to ledger");

    let received_data_1 = user_ledger.read(&root, uuid_1).unwrap();

    assert_eq!(&received_data_1, &person_1);

    user_ledger.remove(&mut root, "employee-3").unwrap();
    user_ledger.remove(&mut root, "employee-4").unwrap();
}

#[test]
fn ledger_should_update_doc() {
    let person = Person { age: 21, name: "duderino".to_owned() };
    let mut root = empty_root();

    let mut user_ledger =
        LocalLedger::<Person>::new(&mut root, "Users", "password".to_owned()).unwrap();

    let uuid = user_ledger
        .create(&mut root, person.clone(), "employee-5")
        .expect("Failed to write to ledger");

    user_ledger
        .update(&mut root, "employee-5", Person { age: 25, ..person.clone() })
        .expect("Failed to update ledger");

    let received_data = user_ledger.read(&root, uuid).unwrap();

    let expected_data = Person { age: 25, ..person };

    assert_eq!(&received_data, &expected_data);

    user_ledger.remove(&mut root, "employee-5").unwrap();
}

#[test]
fn should_retrieve_all_doc_labels() {
    let s_pw_1 = SavedPassword { name: "www.example.com".to_owned(), pw: "password1234".to_owned() };
    let s_pw_2 = SavedPassword { name: "www.helloworld.com".to_owned(), pw: "abc123".to_owned() };
    let mut root = empty_root();

    let mut user_ledger =
        LocalLedger::<SavedPassword>::new(&mut root, "Passwords", "master_password".to_owned())
            .unwrap();

    user_ledger
        .create(&mut root, s_pw_1.clone(), "my example.com password")
        .expect("Failed to write to ledger.");

    user_ledger
        .create(&mut root, s_pw_2.clone(), "my helloworld.com password")
        .expect("Failed to write to ledger.");

    let received_data = user_ledger.list_entry_labels(&root).unwrap();

    let mut found_entries = 0;

    for label in received_data.iter() {
        if label == "my example.com password" {
            found_entries += 1;
        }

        if label == "my helloworld.com password" {
            found_entries += 1;
        }
    }

    assert_eq!(found_entries, 2);
    assert_eq!(received_data.len(), 2);
    assert!(!received_data.contains(&"META_DOC".to_string()));

    user_ledger.remove(&mut root, "my example.com password").unwrap();

    user_ledger.remove(&mut root, "my helloworld.com password").unwrap();

    assert!(user_ledger.list_entry_labels(&root).unwrap().is_empty());
}

#[test]
fn should_return_err_if_label_is_blank() {
    let s_pw_1 = SavedPassword { name: "www.example.com".to_owned(), pw: "password1234".to_owned() };
    let mut root = empty_root();

    let mut user_ledger =
        LocalLedger::<SavedPassword>::new(&mut root, "Passwords", "master_password".to_owned())
            .unwrap();

    let err = user_ledger.create(&mut root, s_pw_1, "").unwrap_err();

    assert_eq!(err, LocalLedgerError::new("Label cannot be empty"));
}

#[test]
fn should_return_err_if_label_is_not_unique() {
    let s_pw_1 = SavedPassword { name: "www.example.com".to_owned(), pw: "password1234".to_owned() };
    let s_pw_2 = SavedPassword { name: "www.helloworld.com".to_owned(), pw: "abc123".to_owned() };
    let mut root = empty_root();

    let mut user_ledger =
        LocalLedger::<SavedPassword>::new(&mut root, "Passwords", "master_password".to_owned())
            .unwrap();

    user_ledger.create(&mut root, s_pw_1.clone(), "my password").expect("Failed to write to ledger.");

    let err = user_ledger.create(&mut root, s_pw_2.clone(), "my password").unwrap_err();

    assert_eq!(err, LocalLedgerError::new("Labels must be unique"));

    user_ledger.remove(&mut root, "my password").unwrap();
}

#[test]
fn save_and_reload() {
    let person = Person { age: 21, name: "duderino".to_owned() };
    let mut root = empty_root();
    let mut ledger = LocalLedger::<Person>::new(&mut root, "Users", "password".to_owned()).unwrap();
    ledger.create(&mut root, person.clone(), "employee-1").unwrap();
    let on_disk = root.read_file("Users", "employee-1").unwrap();
    assert!(on_disk.encrypted);
    assert_eq!(on_disk.data, Person::default().encode().unwrap());
    assert_ne!(on_disk.encrypted_data, person.encode().unwrap());
    assert_eq!(on_disk.seq, 1);

    let mut reopened =
        LocalLedger::<Person>::new(&mut root, "Users", "password".to_owned()).unwrap();
    assert_eq!(reopened.read_by_entry_name(&root, "employee-1").unwrap(), person);
    assert_eq!(reopened.name(), "Users");
    assert_eq!(reopened.get_ledger_dir(&root).unwrap(), "/home/someone/.fizzgig/Users");
}

#[test]
fn metadata_document_holds_a_hash_that_accepts_the_passphrase() {
    let mut root = empty_root();
    let _ledger = LocalLedger::<Person>::new(&mut root, "Users", "password".to_owned()).unwrap();
    let meta = Document::<LocalLedgerMetaData>::load(&root, "Users", "META_DOC").unwrap();
    let hash = &meta.read_data().unwrap().pw_hash;
    assert!(hash.starts_with("$2"));
    assert!(fizzgig::cipher::password_matches("password", hash));
    assert!(!fizzgig::cipher::password_matches("passw0rd", hash));
    assert_eq!(meta.seq(), 1);
}

#[test]
fn update_of_a_missing_entry_is_refused() {
    let mut root = empty_root();
    let mut ledger = LocalLedger::<Person>::new(&mut root, "Users", "password".to_owned()).unwrap();
    let err = ledger.update(&mut root, "nobody", Person::default()).unwrap_err();
    assert_eq!(err, LocalLedgerError::new("Entry name not found"));
    let err = ledger.read(&root, "nobody".to_string()).unwrap_err();
    assert_eq!(err, LocalLedgerError::new("Document not found: nobody"));
    let err = ledger.remove(&mut root, "nobody").unwrap_err();
    assert_eq!(err, LocalLedgerError::new("Failed to remove doc: nobody"));
}

#[test]
fn wrong_passphrase_cannot_read_an_entry() {
    let mut root = empty_root();
    let mut ledger = LocalLedger::<Person>::new(&mut root, "Users", "password".to_owned()).unwrap();
    ledger.create(&mut root, Person { age: 3, name: "x".to_string() }, "e").unwrap();
    let image = root.read_file("Users", "e").unwrap();
    let opened = fizzgig::cipher::decrypt_with("other", &image.encrypted_data);
    let err = opened.unwrap_err();
    assert!(err.message.starts_with("Failed to decrypt data: "));
    let sealed = fizzgig::cipher::encrypt_with("password", &vec![1u8, 2, 3]).unwrap();
    assert_ne!(sealed, vec![1u8, 2, 3]);
    assert_eq!(fizzgig::cipher::decrypt_with("password", &sealed).unwrap(), vec![1u8, 2, 3]);
    let garbage = fizzgig::cipher::decrypt_with("password", &vec![1u8, 2, 3]).unwrap_err();
    assert!(garbage.message.starts_with("Failed to decrypt data: "));
}

fn image(uuid: &str, rev: &str) -> fizzgig::root::DocImage {
    fizzgig::root::DocImage {
        label: "Users".to_string(),
        uuid: uuid.to_string(),
        rev: rev.to_string(),
        data: Vec::new(),
        seq: 1,
        encrypted_data: vec![7],
        encrypted: true,
        has_been_decrypted: false,
        rev_history: Vec::new(),
    }
}

#[test]
fn cache_drops_the_least_recently_used_document() {
    let mut cache = fizzgig::cache::DocCache::new(2);
    assert!(!cache.contains("a"));
    assert!(cache.get("a").is_none());
    cache.put("a".to_string(), image("a", "a1"));
    cache.put("b".to_string(), image("b", "b1"));
    assert_eq!(cache.get("a").unwrap().rev, "a1");
    cache.put("c".to_string(), image("c", "c1"));
    assert!(cache.contains("a"));
    assert!(!cache.contains("b"));
    assert!(cache.contains("c"));
    cache.put("a".to_string(), image("a", "a2"));
    assert!(cache.contains("c"));
    assert_eq!(cache.get("a").unwrap().rev, "a2");
    assert_eq!(cache.pop("a").unwrap().rev, "a2");
    assert!(!cache.contains("a"));
    assert!(cache.pop("a").is_none());
    assert!(cache.contains("c"));
}

#[test]
fn a_decrypted_entry_is_read_from_the_cache() {
    let mut root = empty_root();
    let mut ledger = LocalLedger::<Person>::new(&mut root, "Users", "password".to_owned()).unwrap();
    let person = Person { age: 30, name: "cached".to_string() };
    ledger.create(&mut root, person.clone(), "e").unwrap();
    assert_eq!(ledger.read(&root, "e".to_string()).unwrap(), person);

    assert!(root.remove_file("Users", "e"));
    assert_eq!(ledger.read(&root, "e".to_string()).unwrap(), person);
    let err = ledger.create(&mut root, person.clone(), "e").unwrap_err();
    assert_eq!(err, LocalLedgerError::new("Labels must be unique"));
}

#[test]
fn data_sealed_for_a_key_pair_is_not_opened_by_a_passphrase() {
    let recipient = age::x25519::Identity::generate().to_public();
    let encryptor = age::Encryptor::with_recipients(vec![Box::new(recipient)]).unwrap();
    let mut sealed = Vec::new();
    let mut writer = encryptor.wrap_output(&mut sealed).unwrap();
    writer.write_all(b"for a key pair").unwrap();
    writer.finish().unwrap();

    let err = fizzgig::cipher::decrypt_with("password", &sealed).unwrap_err();
    assert_eq!(
        err,
        LocalLedgerError::new(
            "Failed to decrypt. Received encrypted data that was secured by some means other than a passphrase."
        )
    );
}

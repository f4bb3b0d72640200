use std::collections::HashMap;

use fizzgig::document::Document;
use fizzgig::document::Payload;
use fizzgig::error::LocalLedgerError;
use fizzgig::error::LocalLedgerErrorType;
use fizzgig::root::StoreRoot;

#[derive(Debug, Default, Clone, PartialEq, Eq)]
struct Person {
    age: i32,
    name: String,
}

impl Payload for Person {
    fn encode(&self) -> Result<Vec<u8>, String> {
        let mut fields = serde_json::Map::new();
        fields.insert("age".to_string(), serde_json::Value::from(self.age));
        fields.insert("name".to_string(), serde_json::Value::from(self.name.clone()));
        Ok(serde_json::Value::Object(fields).to_string().into_bytes())
    }

    fn decode(bytes: &Vec<u8>) -> Result<Self, String> {
        let value: serde_json::Value = serde_json::from_slice(bytes).map_err(|e| e.to_string())?;
        let age = value.get("age").and_then(|a| a.as_i64()).ok_or("missing field `age`".to_string())?;
        let name = value.get("name").and_then(|n| n.as_str()).ok_or("missing field `name`".to_string())?;
        Ok(Person { age: age as i32, name: name.to_string() })
    }

    fn blank() -> Self {
        Person::default()
    }
}

#[derive(Debug, Default, Clone, PartialEq, Eq)]
struct Config(HashMap<String, String>);

impl Payload for Config {
    fn encode(&self) -> Result<Vec<u8>, String> {
        let mut fields = serde_json::Map::new();
        for (k, v) in self.0.iter() {
            fields.insert(k.clone(), serde_json::Value::from(v.clone()));
        }
        Ok(serde_json::Value::Object(fields).to_string().into_bytes())
    }

    fn decode(bytes: &Vec<u8>) -> Result<Self, String> {
        let value: serde_json::Value = serde_json::from_slice(bytes).map_err(|e| e.to_string())?;
        let fields = value.as_object().ok_or("expected a map".to_string())?;
        let mut map = HashMap::new();
        for (k, v) in fields.iter() {
            map.insert(k.clone(), v.as_str().ok_or("expected a string".to_string())?.to_string());
        }
        Ok(Config(map))
    }

    fn blank() -> Self {
        Config::default()
    }
}

fn person_bytes(person: &Person) -> Vec<u8> {
    person.encode().unwrap()
}

fn empty_root() -> StoreRoot {
    StoreRoot::new("/home/someone/.fizzgig")
}

#[test]
fn document_should_save_doc() {
    let person = Person { age: 1, name: "duder".to_owned() };
    let mut root = empty_root();

    let mut doc = Document::new("Person");

    doc.update(person.clone()).store(&mut root).unwrap();

    assert_eq!(&person, doc.data_in_memory());

    doc.remove(&mut root).unwrap();
}

#[test]
fn document_should_load_doc() {
    let person = Person { age: 1, name: "duder".to_owned() };
    let mut root = empty_root();

    let mut doc = Document::new("Person");
    doc.update(person.clone()).store(&mut root).unwrap();

    let mut loaded_doc = Document::<Person>::load(&root, "Person", doc.read_uuid()).unwrap();
    let loaded_person = loaded_doc.read_data().unwrap();

    assert_eq!(loaded_person, &person);

    loaded_doc.remove(&mut root).unwrap();
}

#[test]
fn document_should_update_doc() {
    let person = Person { age: 1, name: "duder".to_owned() };
    let mut root = empty_root();

    let mut doc = Document::new("Person");
    doc.update(person.clone()).store(&mut root).unwrap();

    let updated_person = Person { age: 21, ..person.clone() };

    doc.update(updated_person.clone()).store(&mut root).unwrap();

    let loaded_doc = Document::<Person>::load(&root, "Person", doc.read_uuid()).unwrap();
    let loaded_person = loaded_doc.read_data().unwrap();

    assert_eq!(loaded_person, &updated_person);

    doc.remove(&mut root).unwrap();
}

#[test]
fn document_should_receive_document_update_conflict() {
    let person = Person { age: 21, name: "Duderino".to_owned() };
    let mut root = empty_root();

    let mut doc_0 = Document::new("Person");
    doc_0.update(person.clone()).store(&mut root).unwrap();

    let doc_uuid = doc_0.get_uuid();

    let mut doc_1 = Document::<Person>::load(&root, "Person", &doc_uuid).unwrap();

    doc_0.update(Person { age: 31, ..person.clone() });
    doc_1.update(Person { age: 22, ..person.clone() });

    doc_0.store(&mut root).unwrap();

    let err = doc_1.store(&mut root).unwrap_err();

    assert_eq!(err.message, "Document update conflict".to_owned());
    assert!(err.is_conflict_err());

    doc_0.remove(&mut root).unwrap();
}

#[test]
fn document_load_should_fail_if_doc_does_not_exist() {
    let root = empty_root();
    let err = Document::<Person>::load(&root, "Person", "some invalid id").unwrap_err();

    let contains_correct_msg = err.to_string().contains("Document not found: ");

    assert!(contains_correct_msg);
}

#[test]
fn document_should_remove_doc() {
    let person = Person { age: 21, name: "Duderino".to_owned() };
    let mut root = empty_root();

    let mut doc_0 = Document::new("Person");
    doc_0.update(person.clone()).store(&mut root).unwrap();

    let uuid = doc_0.read_uuid().to_owned();

    let _ = Document::<Person>::load(&root, "Person", &uuid).unwrap();

    doc_0.remove(&mut root).unwrap();

    let err = Document::<Person>::load(&root, "Person", &uuid).unwrap_err();

    let contains_correct_msg = err.to_string().contains("Document not found: ");

    assert!(contains_correct_msg);
}

#[test]
fn document_should_be_able_to_create_a_hash_map_document() {
    let mut hs = HashMap::new();
    hs.insert("hello".to_owned(), "world".to_owned());
    let hs = Config(hs);
    let mut root = empty_root();

    let mut hash_map_doc_0 = Document::<Config>::new("Config");
    hash_map_doc_0.update(hs.clone()).store(&mut root).unwrap();

    let hash_map_doc_1 =
        Document::<Config>::load(&root, "Config", hash_map_doc_0.read_uuid()).unwrap();

    let received_hash_map = hash_map_doc_1.read_data().unwrap();

    assert_eq!(received_hash_map, &hs);

    hash_map_doc_0.remove(&mut root).unwrap();
}

#[test]
fn document_should_store_encrypted_data() {
    let person = Person { age: 21, name: "Duderino".to_owned() };
    let mut root = empty_root();

    let mut doc_0 = Document::new("Person");

    doc_0
        .update(person.clone())
        .store_encrypted(&mut root, |_data| Ok(b"ENCRYPTED_DATA".to_vec()))
        .unwrap();

    let doc_1 =
        Document::<Person>::decrypt_load(&root, "Person", doc_0.read_uuid(), |_encrypted_data| {
            Ok(person_bytes(&person))
        })
        .unwrap();

    assert_eq!(doc_0.read_uuid(), doc_1.read_uuid());

    assert_eq!(doc_1.read_data().unwrap(), &person);

    doc_0.remove(&mut root).unwrap();
}

#[test]
fn document_load_should_fail_if_doc_is_encrypted() {
    let person = Person { age: 21, name: "Duderino".to_owned() };
    let mut root = empty_root();

    let mut doc_0 = Document::new("Person");

    doc_0
        .update(person.clone())
        .store_encrypted(&mut root, |_data| Ok(b"ENCRYPTED_DATA".to_vec()))
        .unwrap();

    let failed_doc = Document::<Person>::load(&root, "Person", doc_0.read_uuid()).unwrap_err();

    let received_err_msg = &failed_doc.message;

    let expected_err_msg = "Load failed.  Data is encrypted";

    assert_eq!(received_err_msg, expected_err_msg);

    doc_0.remove(&mut root).unwrap();
}

#[test]
fn document_store_should_fail_if_doc_is_encrypted() {
    let person = Person { age: 21, name: "Duderino".to_owned() };
    let mut root = empty_root();

    let mut doc_0 = Document::new("Person");

    doc_0
        .update(person.clone())
        .store_encrypted(&mut root, |_data| Ok(b"ENCRYPTED_DATA".to_vec()))
        .unwrap();

    let person_update = Person { age: 18, ..person };

    let failed_update = doc_0.update(person_update).store(&mut root).unwrap_err();

    let received_err_msg = &failed_update.message;

    let expected_err_msg =
        "Failed to store.  Document has been encrypted.  Try store_encrypted instead.";

    assert_eq!(received_err_msg, expected_err_msg);
    assert_eq!(failed_update.err_type, LocalLedgerErrorType::Default);

    doc_0.remove(&mut root).unwrap();
}

#[test]
fn document_should_be_able_to_query_document_for_its_decrypted_state() {
    let person = Person { age: 21, name: "Duderino".to_owned() };
    let mut root = empty_root();

    let mut doc_0 = Document::new("Person");

    doc_0
        .update(person.clone())
        .store_encrypted(&mut root, |_data| Ok(b"ENCRYPTED_DATA".to_vec()))
        .unwrap();

    assert!(!doc_0.has_been_decrypted());

    let mut doc_1 =
        Document::<Person>::decrypt_load(&root, doc_0.label(), doc_0.read_uuid(), |_| {
            Ok(person_bytes(&person))
        })
        .unwrap();

    assert!(doc_1.has_been_decrypted());

    doc_1
        .update(Person { name: "Duder".to_owned(), ..person.clone() })
        .store_encrypted(&mut root, |_data| Ok(b"UPDATED_ENCRYPTED_DATA".to_vec()))
        .unwrap();

    assert!(!doc_0.has_been_decrypted());
    assert!(!doc_1.has_been_decrypted());

    doc_0.remove(&mut root).unwrap();
}

#[test]
fn document_should_be_able_to_store_doc_with_no_changes() {
    let person = Person { age: 21, name: "duder".to_owned() };
    let mut root = empty_root();

    let mut doc_0 = Document::new("Person");

    doc_0.update(person.clone()).store(&mut root).unwrap();

    doc_0.update(person.clone()).store(&mut root).expect("Failed to store");

    doc_0.remove(&mut root).unwrap();
}

#[test]
fn should_not_overwrite_with_multiple_calls_to_store_encrypted() {
    let person = Person { age: 21, name: "duder".to_string() };
    let mut root = empty_root();
    let mut doc_0 = Document::new("Person");

    doc_0.update(person.clone()).store_encrypted(&mut root, |d| Ok(d)).expect("Failed to store");

    doc_0.store_encrypted(&mut root, |d| Ok(d)).expect("Failed to store");

    assert_eq!(doc_0.data_in_memory().name, "duder".to_string());
    assert_eq!(doc_0.data_in_memory().age, 21);

    doc_0.remove(&mut root).unwrap();
}

#[test]
fn stored_document_counts_its_stores() {
    let mut root = empty_root();
    let mut doc = Document::<Person>::new_alt("Person", "p-1");
    assert_eq!(doc.seq(), 0);
    assert_eq!(doc.rev(), "");
    let mut revs: Vec<String> = Vec::new();
    for n in 1..=4 {
        doc.update(Person { age: n, name: "n".to_string() }).store(&mut root).unwrap();
        revs.push(doc.rev().to_string());
        let loaded = Document::<Person>::load(&root, "Person", "p-1").unwrap();
        assert_eq!(loaded.seq(), n as i64);
        assert_eq!(loaded.rev_history().len(), (n - 1) as usize);
        assert_eq!(loaded.rev(), revs[(n - 1) as usize]);
        assert_eq!(loaded.rev_history()[..], revs[..(n - 1) as usize]);
    }
}

#[test]
fn encrypted_store_never_writes_the_cleartext() {
    let mut root = empty_root();
    let mut doc = Document::<Person>::new_alt("Person", "p-2");
    doc.update(Person { age: 44, name: "secret-name".to_string() })
        .store_encrypted(&mut root, |_| Ok(vec![1, 2, 3]))
        .unwrap();
    let image = root.read_file("Person", "p-2").unwrap();
    assert_eq!(image.data, Person::default().encode().unwrap());
    assert!(image.encrypted);
    assert!(!image.has_been_decrypted);
    assert_eq!(image.encrypted_data, vec![1, 2, 3]);
    assert!(!String::from_utf8(image.data).unwrap().contains("secret-name"));
}

#[test]
fn store_rejects_a_shorter_history() {
    let mut root = empty_root();
    let mut first = Document::<Person>::new_alt("Person", "p-3");
    first.store(&mut root).unwrap();
    first.store(&mut root).unwrap();
    let mut late = Document::<Person>::new_alt("Person", "p-3");
    let err: LocalLedgerError = late.store(&mut root).unwrap_err();
    assert_eq!(err, LocalLedgerError::conflict("Document update conflict"));
    assert_eq!(root.read_file("Person", "p-3").unwrap().seq, 2);
}

#[test]
fn try_load_returns_none_and_creates_the_directory() {
    let mut root = empty_root();
    assert!(!root.dir_exists("Person"));
    assert!(Document::<Person>::try_load(&mut root, "Person", "nobody").is_none());
    assert!(root.dir_exists("Person"));
    assert_eq!(Document::<Person>::doc_exists(&root, "Person", "nobody"), Ok(false));
}

#[test]
fn get_all_uuids_lists_the_stored_documents() {
    let mut root = empty_root();
    assert!(Document::<Person>::get_all_uuids(&root, "Person").is_err());
    let mut a = Document::<Person>::new_alt("Person", "a");
    let mut b = Document::<Person>::new_alt("Person", "b");
    let mut c = Document::<Person>::new_alt("Other", "c");
    a.store(&mut root).unwrap();
    b.store(&mut root).unwrap();
    c.store(&mut root).unwrap();
    a.store(&mut root).unwrap();
    let mut uuids = Document::<Person>::get_all_uuids(&root, "Person").unwrap();
    uuids.sort();
    assert_eq!(uuids, vec!["a".to_string(), "b".to_string()]);
    assert_eq!(a.get_data_dir(&root).unwrap(), "/home/someone/.fizzgig/Person".to_string());
}

#[test]
fn read_mut_changes_the_payload_in_place() {
    let mut doc = Document::<Person>::new("Person");
    doc.read_mut().unwrap().age = 7;
    assert_eq!(doc.read_data().unwrap().age, 7);
    assert_eq!(doc.get_uuid().len(), 32);
    assert!(doc.get_uuid().chars().all(|c| c.is_ascii_digit() || ('A'..='F').contains(&c)));
}

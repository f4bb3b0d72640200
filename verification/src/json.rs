//! Objects of text fields in the interchange format.

use vstd::prelude::*;

verus! {

/// The text of field `key` of the object that `bytes` hold in the
/// interchange format, where they hold an object with such a text field.
pub uninterp spec fn json_text_field(bytes: Seq<u8>, key: Seq<char>) -> Option<Seq<char>>;

/// The bytes of the object with the text fields `fields`, each a name and
/// a value, in the interchange format.
pub uninterp spec fn json_object(fields: Seq<(Seq<char>, Seq<char>)>) -> Seq<u8>;

/// The names and values of a list of text fields.
pub open spec fn pairs(fields: Seq<(String, String)>) -> Seq<(Seq<char>, Seq<char>)> {
    Seq::new(fields.len(), |i: int| (fields[i].0@, fields[i].1@))
}

/// Every field of `fields` whose name no other field has is read back from
/// `bytes` with its value.
pub open spec fn reads_back(bytes: Seq<u8>, fields: Seq<(Seq<char>, Seq<char>)>) -> bool {
    forall|i: int|
        0 <= i < fields.len() && (forall|j: int|
            0 <= j < fields.len() && j != i ==> fields[j].0 != fields[i].0)
            ==> json_text_field(bytes, (#[trigger] fields[i]).0) == Some(fields[i].1)
}

/// Parses `bytes` with `serde_json::from_slice` and reads field `key` with
/// `Value::get` and `Value::as_str`. The result depends on the two
/// arguments alone.
#[verifier::external_body]
pub(crate) fn read_text_field(bytes: &Vec<u8>, key: &str) -> (r: Option<String>)
    ensures
        r matches Some(text) ==> json_text_field(bytes@, key@) == Some(text@),
        r is None ==> json_text_field(bytes@, key@) is None,
{
    let value = serde_json::from_slice::<serde_json::Value>(bytes).ok()?;
    value.get(key)?.as_str().map(|text| text.to_owned())
}

/// The field name that `serde_json` keeps for itself: an object whose
/// first field has this name is not read as an object.
pub open spec fn reserved_name() -> Seq<char> {
    "$serde_json::private::RawValue"@
}

/// No field of `fields` has the reserved name.
pub open spec fn free_of_reserved(fields: Seq<(Seq<char>, Seq<char>)>) -> bool {
    forall|i: int| 0 <= i < fields.len() ==> (#[trigger] fields[i]).0 != reserved_name()
}

/// A name of fewer than thirty characters is not the reserved name.
pub proof fn lemma_short_name_is_free(name: Seq<char>)
    requires
        name.len() < 30,
    ensures
        name != reserved_name(),
{
    reveal_strlit("$serde_json::private::RawValue");
}

/// Prints the object with the text fields `fields` with `serde_json`. The
/// result depends on the fields alone, and `serde_json` reads each field
/// back from what it printed, as long as no field has the name that it
/// keeps for itself.
#[verifier::external_body]
pub(crate) fn write_text_fields(fields: &Vec<(String, String)>) -> (r: Vec<u8>)
    requires
        free_of_reserved(pairs(fields@)),
    ensures
        r@ == json_object(pairs(fields@)),
        reads_back(r@, pairs(fields@)),
{
    let object: serde_json::Map<String, serde_json::Value> =
        fields.iter().map(|f| (f.0.clone(), serde_json::Value::String(f.1.clone()))).collect();
    serde_json::Value::Object(object).to_string().into_bytes()
}

} // verus!

//! Failure kinds shared by the document, ledger and relay layers.

use vstd::prelude::*;

verus! {

/// The kind of failure a ledger operation reports.
#[derive(Debug, Clone, Copy, PartialEq, Eq, Structural)]
pub enum LocalLedgerErrorType {
    /// Any failure that is neither a revision conflict nor a metadata conflict.
    Default,
    /// A store whose revision chain diverges from the chain on disk.
    Confict,
    /// A merge whose incoming metadata document diverges from the local one.
    MetaDocConflict,
}

/// A failure together with the message shown to the user.
#[derive(Debug, Clone, PartialEq)]
pub struct LocalLedgerError {
    pub message: String,
    pub err_type: LocalLedgerErrorType,
}

/// The result is a failure of kind `kind` with message `text`.
pub open spec fn fails_with<V>(
    r: Result<V, LocalLedgerError>,
    kind: LocalLedgerErrorType,
    text: Seq<char>,
) -> bool {
    match r {
        Err(e) => e.is(kind, text),
        Ok(_) => false,
    }
}

/// The result is a failure of kind `kind`, whatever its message.
pub open spec fn fails_as<V>(r: Result<V, LocalLedgerError>, kind: LocalLedgerErrorType) -> bool {
    match r {
        Err(e) => e.err_type == kind,
        Ok(_) => false,
    }
}

impl LocalLedgerError {
    /// True when the error has kind `kind` and message `text`.
    pub open spec fn is(&self, kind: LocalLedgerErrorType, text: Seq<char>) -> bool {
        self.err_type == kind && self.message@ == text
    }

    /// A `Default` failure carrying `m`.
    pub fn new(m: &str) -> (e: Self)
        ensures
            e.is(LocalLedgerErrorType::Default, m@),
    {
        LocalLedgerError { message: m.to_owned(), err_type: LocalLedgerErrorType::Default }
    }

    /// A `Confict` failure carrying `m`.
    pub fn conflict(m: &str) -> (e: Self)
        ensures
            e.is(LocalLedgerErrorType::Confict, m@),
    {
        LocalLedgerError { message: m.to_owned(), err_type: LocalLedgerErrorType::Confict }
    }

    /// A `MetaDocConflict` failure carrying `m`.
    pub fn meta_doc_conflict(m: &str) -> (e: Self)
        ensures
            e.is(LocalLedgerErrorType::MetaDocConflict, m@),
    {
        LocalLedgerError { message: m.to_owned(), err_type: LocalLedgerErrorType::MetaDocConflict }
    }

    /// A `Default` failure whose message is `prefix` followed by `detail`.
    pub fn with_detail(prefix: &str, detail: &str) -> (e: Self)
        ensures
            e.is(LocalLedgerErrorType::Default, prefix@ + detail@),
    {
        let mut message: String = prefix.to_owned();
        message.append(detail);
        LocalLedgerError { message, err_type: LocalLedgerErrorType::Default }
    }

    pub fn is_conflict_err(&self) -> (b: bool)
        ensures
            b == (self.err_type == LocalLedgerErrorType::Confict),
    {
        self.err_type == LocalLedgerErrorType::Confict
    }

    pub fn err_type(&self) -> (t: &LocalLedgerErrorType)
        ensures
            *t == self.err_type,
    {
        &self.err_type
    }

    /// The text a user sees: the message alone, without the kind.
    pub fn to_string(&self) -> (s: String)
        ensures
            s@ == self.message@,
    {
        self.message.clone()
    }
}

} // verus!

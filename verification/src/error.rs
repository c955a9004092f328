use vstd::prelude::*;
use vstd::string::StringExecFns;

verus! {

/// The engine's error taxonomy.
///
/// The engine itself only ever computes `DuplicatedSchemaField` (the
/// uniqueness enforcer), `NoImplemented` (failed lookups such as an
/// unknown relation-kind name) and `NotRegistered` (an operation on a
/// collection never registered with the mapping instance). `Decode`,
/// `Encode` and `Store` exist for the serialization and transport
/// failures an adapter around a real document store reports, and for
/// user hooks to raise.
#[derive(Clone, Debug, PartialEq)]
pub enum Error {
    /// A document could not be decoded into a record.
    Decode(String),
    /// A record could not be encoded into a document.
    Encode(String),
    /// The underlying store failed; carries the store's message.
    Store(String),
    /// A unique field already holds this value in another document:
    /// the field's name and the rendering of the offending value.
    DuplicatedSchemaField(String, String),
    /// The requested conversion or lookup is not implemented.
    NoImplemented,
    /// The collection was never registered with this mapping instance.
    NotRegistered,
}

/// How an error reads when reported to a caller.
pub open spec fn message_of(e: Error) -> Seq<char> {
    match e {
        Error::Decode(m) => "Decode error: "@ + m@,
        Error::Encode(m) => "Encode error: "@ + m@,
        Error::Store(m) => "Store error: "@ + m@,
        Error::DuplicatedSchemaField(f, v) => "Duplicated schema field ("@ + f@ + "): "@ + v@,
        Error::NoImplemented => "No implemented"@,
        Error::NotRegistered => "Schema is not registered"@,
    }
}

impl Error {
    /// The error as human-readable text.
    pub fn message(&self) -> (r: String)
        ensures
            r@ == message_of(*self),
    {
        match self {
            Error::Decode(m) => String::from_str("Decode error: ").concat(m.as_str()),
            Error::Encode(m) => String::from_str("Encode error: ").concat(m.as_str()),
            Error::Store(m) => String::from_str("Store error: ").concat(m.as_str()),
            Error::DuplicatedSchemaField(f, v) => String::from_str("Duplicated schema field (")
                .concat(f.as_str())
                .concat("): ")
                .concat(v.as_str()),
            Error::NoImplemented => String::from_str("No implemented"),
            Error::NotRegistered => String::from_str("Schema is not registered"),
        }
    }
}

} // verus!

//! The failures that the codec reports.
use vstd::prelude::*;

verus! {

/// What went wrong while reading or writing the wire format.
#[derive(PartialEq, Eq, Structural, Clone, Copy, Debug)]
pub enum ErrorKind {
    /// The bytes were read but do not form a valid value: invalid UTF-8, a length below
    /// the permitted sentinel, an envelope for another message type or version, or a
    /// frame whose content does not fill it exactly.
    MalformedPayload,
    /// The input ended before a field or a frame was complete.
    Truncated,
    /// The transport under the codec failed.
    InternalIoError,
}

/// A failure with its kind and a human-readable description.
#[derive(PartialEq, Eq, Clone, Debug)]
pub struct KafkaError {
    pub kind: ErrorKind,
    pub desc: &'static str,
    pub detail: Option<String>,
}

impl KafkaError {
    /// A failure of the given kind, described by `desc`.
    pub fn from_error(kind: ErrorKind, desc: &'static str) -> (r: KafkaError)
        ensures
            r.kind == kind,
            r.desc == desc,
            r.detail is None,
    {
        KafkaError { kind, desc, detail: None }
    }

    /// A failure of the transport under the codec, with its own account of what happened.
    pub fn from_io_failure(detail: String) -> (r: KafkaError)
        ensures
            r.kind == ErrorKind::InternalIoError,
            r.desc == "An internal IO error occurred.",
            r.detail == Some(detail),
    {
        KafkaError { kind: ErrorKind::InternalIoError, desc: "An internal IO error occurred.", detail: Some(detail) }
    }

    /// The short description of the failure.
    pub fn description(&self) -> (r: &str)
        ensures
            r == self.desc,
    {
        self.desc
    }

    /// Further detail on the failure, where there is any.
    pub fn detail(&self) -> (r: Option<String>)
        ensures
            r == self.detail,
    {
        self.detail.clone()
    }
}

} // verus!

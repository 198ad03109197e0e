//! The error type shared by every fallible operation of the library.

use crate::text::{push_signed_decimal, push_str, signed_decimal, string_of};
use crate::types::print::{push_type, type_text};
use crate::types::Type;
use vstd::prelude::*;

verus! {

/// Everything that can go wrong between the caller and the server.
#[derive(Debug)]
pub enum KlickhouseError {
    MissingRow,
    DoubleFetch,
    OutOfBounds,
    MissingField(&'static str),
    DuplicateField(&'static str),
    ProtocolError(String),
    TypeParseError(String),
    DeserializeError(String),
    SerializeError(String),
    DeserializeErrorWithColumn(String, String),
    ServerException { code: i32, name: String, message: String, stack_trace: String },
    UnexpectedType(Type),
    UnexpectedTypeWithColumn(String, Type),
    Io(String),
    Utf8(String),
    Timeout(String),
    ConnectionError(String),
    CompressionError(String),
    NotImplemented(String),
}

/// The taxonomy of [`KlickhouseError`], without the payloads.
#[derive(Debug, Clone, Copy, PartialEq, Eq, Structural)]
pub enum ErrorKind {
    MissingRow,
    DoubleFetch,
    OutOfBounds,
    MissingField,
    DuplicateField,
    ProtocolError,
    TypeParseError,
    DeserializeError,
    SerializeError,
    ServerException,
    UnexpectedType,
    Io,
    Utf8,
    Timeout,
    ConnectionError,
    CompressionError,
    NotImplemented,
}

impl KlickhouseError {
    /// The kind of this error; the column-annotated variants share the kind
    /// of the variant they annotate.
    pub open spec fn kind(&self) -> ErrorKind {
        match self {
            KlickhouseError::MissingRow => ErrorKind::MissingRow,
            KlickhouseError::DoubleFetch => ErrorKind::DoubleFetch,
            KlickhouseError::OutOfBounds => ErrorKind::OutOfBounds,
            KlickhouseError::MissingField(_) => ErrorKind::MissingField,
            KlickhouseError::DuplicateField(_) => ErrorKind::DuplicateField,
            KlickhouseError::ProtocolError(_) => ErrorKind::ProtocolError,
            KlickhouseError::TypeParseError(_) => ErrorKind::TypeParseError,
            KlickhouseError::DeserializeError(_) => ErrorKind::DeserializeError,
            KlickhouseError::SerializeError(_) => ErrorKind::SerializeError,
            KlickhouseError::DeserializeErrorWithColumn(_, _) => ErrorKind::DeserializeError,
            KlickhouseError::ServerException { .. } => ErrorKind::ServerException,
            KlickhouseError::UnexpectedType(_) => ErrorKind::UnexpectedType,
            KlickhouseError::UnexpectedTypeWithColumn(_, _) => ErrorKind::UnexpectedType,
            KlickhouseError::Io(_) => ErrorKind::Io,
            KlickhouseError::Utf8(_) => ErrorKind::Utf8,
            KlickhouseError::Timeout(_) => ErrorKind::Timeout,
            KlickhouseError::ConnectionError(_) => ErrorKind::ConnectionError,
            KlickhouseError::CompressionError(_) => ErrorKind::CompressionError,
            KlickhouseError::NotImplemented(_) => ErrorKind::NotImplemented,
        }
    }


    /// Whether this is the error of kind `kind` that holds the text `text`
    /// and nothing else: not the variant that a column's name was attached
    /// to, and not one of the kinds that hold no text.
    pub open spec fn says(&self, kind: ErrorKind, text: Seq<char>) -> bool {
        self.kind() == kind && match self {
            KlickhouseError::ProtocolError(t) => t@ == text,
            KlickhouseError::TypeParseError(t) => t@ == text,
            KlickhouseError::DeserializeError(t) => t@ == text,
            KlickhouseError::SerializeError(t) => t@ == text,
            KlickhouseError::Io(t) => t@ == text,
            KlickhouseError::Utf8(t) => t@ == text,
            KlickhouseError::Timeout(t) => t@ == text,
            KlickhouseError::ConnectionError(t) => t@ == text,
            KlickhouseError::CompressionError(t) => t@ == text,
            KlickhouseError::NotImplemented(t) => t@ == text,
            _ => false,
        }
    }

    /// Whether this is an error of kind `kind` that no column's name was
    /// attached to.
    pub open spec fn is_plain(&self, kind: ErrorKind) -> bool {
        self.kind() == kind && !(self is DeserializeErrorWithColumn) && !(self
            is UnexpectedTypeWithColumn)
    }

    /// Whether this error, which came up while the column called `name` was
    /// read, says so as far as its kind can: a deserialize error and an
    /// unexpected-type error are the variants that hold the name of the
    /// column, and hold this name.
    pub open spec fn names_column(&self, name: Seq<char>) -> bool {
        match self.kind() {
            ErrorKind::DeserializeError => self matches KlickhouseError::DeserializeErrorWithColumn(
                n,
                _,
            ) && n@ == name,
            ErrorKind::UnexpectedType => self matches KlickhouseError::UnexpectedTypeWithColumn(
                n,
                _,
            ) && n@ == name,
            _ => true,
        }
    }

    /// Whether this is the error of kind `kind` that a reader hands on for
    /// a failure in the column `column`, or outside any column: the first
    /// holds the name of the column as far as its kind can, the second
    /// holds no column's name.
    pub open spec fn reports(&self, kind: ErrorKind, column: Option<Seq<char>>) -> bool {
        self.kind() == kind && match column {
            Some(name) => self.names_column(name),
            None => self.is_plain(kind),
        }
    }

    /// The text that describes this error.
    pub open spec fn message(&self) -> Seq<char> {
        match self {
            KlickhouseError::MissingRow => "no rows received when expecting at least one row"@,
            KlickhouseError::DoubleFetch => "can't fetch the same column twice from RawRow"@,
            KlickhouseError::OutOfBounds => "column index was out of bounds or not present"@,
            KlickhouseError::MissingField(field) => "missing field "@ + field@,
            KlickhouseError::DuplicateField(field) => "duplicate field "@ + field@ + " in struct"@,
            KlickhouseError::ProtocolError(text) => "protocol error: "@ + text@,
            KlickhouseError::TypeParseError(text) => "type parse error: "@ + text@,
            KlickhouseError::DeserializeError(text) => "deserialize error: "@ + text@,
            KlickhouseError::SerializeError(text) => "serialize error: "@ + text@,
            KlickhouseError::DeserializeErrorWithColumn(column, text) =>
                "deserialize error for column "@ + column@ + ": "@ + text@,
            KlickhouseError::ServerException { code, name, message, stack_trace } =>
                "server exception: "@ + signed_decimal(*code as int) + " "@ + name@ + ": "@
                    + message@ + "\n"@ + stack_trace@,
            KlickhouseError::UnexpectedType(t) => "unexpected type: "@ + type_text(t@),
            KlickhouseError::UnexpectedTypeWithColumn(column, t) => "unexpected type for column "@
                + column@ + ": "@ + type_text(t@),
            KlickhouseError::Io(text) => "io error: "@ + text@,
            KlickhouseError::Utf8(text) => "utf-8 conversion error: "@ + text@,
            KlickhouseError::Timeout(text) => "timeout: "@ + text@,
            KlickhouseError::ConnectionError(text) => "connection error: "@ + text@,
            KlickhouseError::CompressionError(text) => "compression error: "@ + text@,
            KlickhouseError::NotImplemented(text) => "not implemented: "@ + text@,
        }
    }

    /// The text that describes this error.
    pub fn to_string(&self) -> (r: String)
        ensures
            r@ == self.message(),
    {
        let mut out: Vec<char> = Vec::new();
        match self {
            KlickhouseError::MissingRow => {
                push_str(&mut out, "no rows received when expecting at least one row");
            },
            KlickhouseError::DoubleFetch => {
                push_str(&mut out, "can't fetch the same column twice from RawRow");
            },
            KlickhouseError::OutOfBounds => {
                push_str(&mut out, "column index was out of bounds or not present");
            },
            KlickhouseError::MissingField(field) => {
                push_str(&mut out, "missing field ");
                push_str(&mut out, field);
            },
            KlickhouseError::DuplicateField(field) => {
                push_str(&mut out, "duplicate field ");
                push_str(&mut out, field);
                push_str(&mut out, " in struct");
            },
            KlickhouseError::ProtocolError(text) => {
                push_str(&mut out, "protocol error: ");
                push_str(&mut out, text.as_str());
            },
            KlickhouseError::TypeParseError(text) => {
                push_str(&mut out, "type parse error: ");
                push_str(&mut out, text.as_str());
            },
            KlickhouseError::DeserializeError(text) => {
                push_str(&mut out, "deserialize error: ");
                push_str(&mut out, text.as_str());
            },
            KlickhouseError::SerializeError(text) => {
                push_str(&mut out, "serialize error: ");
                push_str(&mut out, text.as_str());
            },
            KlickhouseError::DeserializeErrorWithColumn(column, text) => {
                push_str(&mut out, "deserialize error for column ");
                push_str(&mut out, column.as_str());
                push_str(&mut out, ": ");
                push_str(&mut out, text.as_str());
            },
            KlickhouseError::ServerException { code, name, message, stack_trace } => {
                push_str(&mut out, "server exception: ");
                push_signed_decimal(&mut out, *code as i64);
                push_str(&mut out, " ");
                push_str(&mut out, name.as_str());
                push_str(&mut out, ": ");
                push_str(&mut out, message.as_str());
                push_str(&mut out, "\n");
                push_str(&mut out, stack_trace.as_str());
            },
            KlickhouseError::UnexpectedType(t) => {
                push_str(&mut out, "unexpected type: ");
                push_type(&mut out, t);
            },
            KlickhouseError::UnexpectedTypeWithColumn(column, t) => {
                push_str(&mut out, "unexpected type for column ");
                push_str(&mut out, column.as_str());
                push_str(&mut out, ": ");
                push_type(&mut out, t);
            },
            KlickhouseError::Io(text) => {
                push_str(&mut out, "io error: ");
                push_str(&mut out, text.as_str());
            },
            KlickhouseError::Utf8(text) => {
                push_str(&mut out, "utf-8 conversion error: ");
                push_str(&mut out, text.as_str());
            },
            KlickhouseError::Timeout(text) => {
                push_str(&mut out, "timeout: ");
                push_str(&mut out, text.as_str());
            },
            KlickhouseError::ConnectionError(text) => {
                push_str(&mut out, "connection error: ");
                push_str(&mut out, text.as_str());
            },
            KlickhouseError::CompressionError(text) => {
                push_str(&mut out, "compression error: ");
                push_str(&mut out, text.as_str());
            },
            KlickhouseError::NotImplemented(text) => {
                push_str(&mut out, "not implemented: ");
                push_str(&mut out, text.as_str());
            },
        }
        assert(out@ =~= self.message());
        string_of(&out)
    }

    /// Attaches the owning column's name to a decode or type error; every
    /// other error passes through unchanged.
    pub fn with_column_name(self, name: &str) -> (r: KlickhouseError)
        ensures
            r.kind() == self.kind(),
            self matches KlickhouseError::DeserializeError(e) ==> (
            r matches KlickhouseError::DeserializeErrorWithColumn(n, f) && n@ == name@ && f == e),
            self matches KlickhouseError::UnexpectedType(t) ==> (
            r matches KlickhouseError::UnexpectedTypeWithColumn(n, u) && n@ == name@ && u == t),
            !(self is DeserializeError) && !(self is UnexpectedType) ==> r == self,
    {
        match self {
            KlickhouseError::DeserializeError(e) => KlickhouseError::DeserializeErrorWithColumn(
                name.to_owned(),
                e,
            ),
            KlickhouseError::UnexpectedType(t) => KlickhouseError::UnexpectedTypeWithColumn(
                name.to_owned(),
                t,
            ),
            x => x,
        }
    }
}

impl Clone for KlickhouseError {
    /// A copy with the same kind and the same payload.
    fn clone(&self) -> (res: Self)
        ensures
            res.kind() == self.kind(),
            res.message() == self.message(),
            !(self is UnexpectedType) && !(self is UnexpectedTypeWithColumn) ==> res == *self,
            self matches KlickhouseError::UnexpectedType(t) ==> (
            res matches KlickhouseError::UnexpectedType(u) && u@ == t@),
            self matches KlickhouseError::UnexpectedTypeWithColumn(c, t) ==> (
            res matches KlickhouseError::UnexpectedTypeWithColumn(d, u) && d == c && u@ == t@),
    {
        match self {
            KlickhouseError::MissingRow => KlickhouseError::MissingRow,
            KlickhouseError::DoubleFetch => KlickhouseError::DoubleFetch,
            KlickhouseError::OutOfBounds => KlickhouseError::OutOfBounds,
            KlickhouseError::MissingField(field) => KlickhouseError::MissingField(field),
            KlickhouseError::DuplicateField(field) => KlickhouseError::DuplicateField(field),
            KlickhouseError::ProtocolError(text) => KlickhouseError::ProtocolError(text.clone()),
            KlickhouseError::TypeParseError(text) => KlickhouseError::TypeParseError(text.clone()),
            KlickhouseError::DeserializeError(text) => KlickhouseError::DeserializeError(
                text.clone(),
            ),
            KlickhouseError::SerializeError(text) => KlickhouseError::SerializeError(text.clone()),
            KlickhouseError::DeserializeErrorWithColumn(column, text) =>
                KlickhouseError::DeserializeErrorWithColumn(column.clone(), text.clone()),
            KlickhouseError::ServerException { code, name, message, stack_trace } =>
                KlickhouseError::ServerException {
                    code: *code,
                    name: name.clone(),
                    message: message.clone(),
                    stack_trace: stack_trace.clone(),
                },
            KlickhouseError::UnexpectedType(t) => KlickhouseError::UnexpectedType(t.clone()),
            KlickhouseError::UnexpectedTypeWithColumn(column, t) =>
                KlickhouseError::UnexpectedTypeWithColumn(column.clone(), t.clone()),
            KlickhouseError::Io(text) => KlickhouseError::Io(text.clone()),
            KlickhouseError::Utf8(text) => KlickhouseError::Utf8(text.clone()),
            KlickhouseError::Timeout(text) => KlickhouseError::Timeout(text.clone()),
            KlickhouseError::ConnectionError(text) => KlickhouseError::ConnectionError(
                text.clone(),
            ),
            KlickhouseError::CompressionError(text) => KlickhouseError::CompressionError(
                text.clone(),
            ),
            KlickhouseError::NotImplemented(text) => KlickhouseError::NotImplemented(text.clone()),
        }
    }
}

} // verus!

use vstd::prelude::*;
use vstd::utf8::*;
use vstd::string::StringSliceAdditionalSpecFns;

verus! {

/// The family an error belongs to: a refused request, a broken invariant of
/// the engine, or a failure of the package layer.
#[derive(Clone, Copy, PartialEq, Eq, Debug)]
pub enum ErrorKind {
    Validation,
    Internal,
    Io,
}

/// An error of the document engine: its family and its message (UTF-8 bytes).
#[derive(Clone, Debug)]
pub struct DocError {
    pub kind: ErrorKind,
    pub message: Vec<u8>,
}

pub type DocResult<T> = Result<T, DocError>;

/// Turns bytes into a `String`; invalid UTF-8 sequences become U+FFFD.
/// Calls `String::from_utf8_lossy`; claims that valid UTF-8 is kept as is.
#[verifier::external_body]
pub(crate) fn bytes_to_string(v: &[u8]) -> (s: String)
    ensures
        valid_utf8(v@) ==> s@ == decode_utf8(v@),
{
    String::from_utf8_lossy(v).into_owned()
}

impl DocError {
    /// A refused request with the given message.
    pub fn validation(message: Vec<u8>) -> (e: DocError)
        ensures
            e.kind == ErrorKind::Validation,
            e.message@ == message@,
    {
        DocError { kind: ErrorKind::Validation, message }
    }

    /// A broken engine invariant with the given message.
    pub fn internal(message: Vec<u8>) -> (e: DocError)
        ensures
            e.kind == ErrorKind::Internal,
            e.message@ == message@,
    {
        DocError { kind: ErrorKind::Internal, message }
    }

    /// The message with the family prefix, as bytes.
    pub fn render(&self) -> (r: Vec<u8>)
        ensures
            r@ == self.prefix() + self.message@,
    {
        let mut out: Vec<u8> = Vec::new();
        match self.kind {
            ErrorKind::Validation => crate::bytes_util::push_str(&mut out, "参数校验失败: "),
            ErrorKind::Internal => crate::bytes_util::push_str(&mut out, "内部错误: "),
            ErrorKind::Io => crate::bytes_util::push_str(&mut out, "IO 错误: "),
        }
        crate::bytes_util::push_bytes(&mut out, self.message.as_slice());
        out
    }

    /// The message with the family prefix.
    pub fn to_string(&self) -> (s: String)
        ensures
            valid_utf8(self.prefix() + self.message@) ==> s@ == decode_utf8(self.prefix() + self.message@),
    {
        let r = self.render();
        bytes_to_string(r.as_slice())
    }

    pub open spec fn prefix(&self) -> Seq<u8> {
        match self.kind {
            ErrorKind::Validation => "参数校验失败: ".spec_bytes(),
            ErrorKind::Internal => "内部错误: ".spec_bytes(),
            ErrorKind::Io => "IO 错误: ".spec_bytes(),
        }
    }
}

} // verus!

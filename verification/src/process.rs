//! The result of running an outside command, as the detectors read it.
use vstd::prelude::*;

verus! {

/// Exit status and standard output of a finished command.  A command that
/// could not be started is represented by the absence of a value
/// (`Option<ProcessOutput>` is `None`).
pub struct ProcessOutput {
    pub success: bool,
    pub stdout: Vec<u8>,
}

/// What `String::from_utf8_lossy` makes of a byte sequence: its UTF-8
/// decoding, with each invalid sequence replaced by U+FFFD.
pub uninterp spec fn utf8_lossy(bytes: Seq<u8>) -> Seq<char>;

/// `String::from_utf8_lossy`: the text of `bytes`, with invalid sequences
/// replaced by U+FFFD; on valid UTF-8 it is the plain decoding.
#[verifier::external_body]
pub(crate) fn text_of_bytes(bytes: &[u8]) -> (r: String)
    ensures
        r@ == utf8_lossy(bytes@),
        vstd::utf8::valid_utf8(bytes@) ==> r@ == vstd::utf8::decode_utf8(bytes@),
{
    String::from_utf8_lossy(bytes).into_owned()
}

/// The standard output of a command as text.
pub open spec fn stdout_text(o: ProcessOutput) -> Seq<char> {
    utf8_lossy(o.stdout@)
}

} // verus!

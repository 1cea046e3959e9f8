//! Trusted boundary: declarations of outside types and the small wrappers through
//! which the verified code calls std and outside crates. Nothing here is proved;
//! each item's doc comment says what its contract assumes of the code it calls.
use vstd::prelude::*;

verus! {

/// `std::io::Error`, carried through the library as an opaque value.
#[verifier::external_type_specification]
#[verifier::external_body]
pub struct ExIoError(std::io::Error);

/// How the library tells I/O failures apart: a timeout, a would-block, an unexpected
/// end of input, or anything else.
#[derive(Debug, Clone, Copy, PartialEq, Eq)]
pub enum IoErrorClass {
    TimedOut,
    WouldBlock,
    UnexpectedEof,
    Other,
}

/// The class of an `std::io::Error`, read from its `kind()`.
pub uninterp spec fn io_error_class(error: std::io::Error) -> IoErrorClass;

/// Calls `std::io::Error::kind` and maps `ErrorKind::TimedOut`, `ErrorKind::WouldBlock` and
/// `ErrorKind::UnexpectedEof` to their own classes and every other kind to `Other`. The contract only ties the
/// result to the name `io_error_class` of the error value.
#[verifier::external_body]
pub fn classify_io_error(error: &std::io::Error) -> (class: IoErrorClass)
    ensures
        class == io_error_class(*error),
{
    match error.kind() {
        std::io::ErrorKind::TimedOut => IoErrorClass::TimedOut,
        std::io::ErrorKind::WouldBlock => IoErrorClass::WouldBlock,
        std::io::ErrorKind::UnexpectedEof => IoErrorClass::UnexpectedEof,
        _ => IoErrorClass::Other,
    }
}

/// Calls `std::io::Error::new` with `ErrorKind::TimedOut`; such an error's `kind()` is
/// `TimedOut`, which is what the contract states.
#[verifier::external_body]
pub fn timed_out_error(message: &'static str) -> (error: std::io::Error)
    ensures
        io_error_class(error) == IoErrorClass::TimedOut,
{
    std::io::Error::new(std::io::ErrorKind::TimedOut, message)
}

/// Calls `std::io::Error::new` with `ErrorKind::UnexpectedEof`; such an error's `kind()`
/// is `UnexpectedEof`, which is what the contract states.
#[verifier::external_body]
pub fn unexpected_eof_error(message: &'static str) -> (error: std::io::Error)
    ensures
        io_error_class(error) == IoErrorClass::UnexpectedEof,
{
    std::io::Error::new(std::io::ErrorKind::UnexpectedEof, message)
}

/// `Clone` of `std::time::Duration`, a `Copy` type: the clone is the same value.
pub assume_specification[ <std::time::Duration as std::clone::Clone>::clone ](
    duration: &std::time::Duration,
) -> (copy: std::time::Duration)
    ensures
        copy == *duration,
;

/// The length of a `std::time::Duration` in nanoseconds.
pub uninterp spec fn duration_nanos(duration: std::time::Duration) -> int;

/// Calls `std::time::Duration::from_millis`: the duration of `millis` milliseconds.
#[verifier::external_body]
pub fn duration_from_millis(millis: u64) -> (duration: std::time::Duration)
    ensures
        duration_nanos(duration) == millis * 1_000_000,
{
    std::time::Duration::from_millis(millis)
}

/// Calls `std::time::Duration::subsec_nanos`: the fractional part of the duration in
/// nanoseconds, that is the length in nanoseconds modulo one second.
#[verifier::external_body]
pub fn duration_subsec_nanos(duration: &std::time::Duration) -> (nanos: u32)
    ensures
        nanos == duration_nanos(*duration) % 1_000_000_000,
{
    duration.subsec_nanos()
}

/// Calls `std::time::Duration::as_millis`: the number of whole milliseconds.
#[verifier::external_body]
pub fn duration_as_millis(duration: &std::time::Duration) -> (millis: u128)
    ensures
        millis == duration_nanos(*duration) / 1_000_000,
{
    duration.as_millis()
}

/// Calls `==` on two `std::time::Duration` values: equal exactly when their lengths are.
#[verifier::external_body]
pub fn durations_equal(a: &std::time::Duration, b: &std::time::Duration) -> (equal: bool)
    ensures
        equal == (duration_nanos(*a) == duration_nanos(*b)),
{
    *a == *b
}

/// Calls `String::push`: appends one character.
#[verifier::external_body]
pub fn push_char(text: &mut String, c: char)
    ensures
        final(text)@ == old(text)@.push(c),
{
    text.push(c);
}

/// What `{:?}` writes for a string: the text in double quotes, each character escaped
/// as `char::escape_debug` escapes it, except that single quotes are left as they are.
pub uninterp spec fn debug_text(text: Seq<char>) -> Seq<char>;

/// Formats a string with `{:?}`. The contract only ties the result to the name
/// `debug_text` of the argument.
#[verifier::external_body]
pub fn debug_quoted(text: &str) -> (quoted: String)
    ensures
        quoted@ == debug_text(text@),
{
    format!("{:?}", text)
}

/// Formats an `std::io::Error` with `{}`. The text comes from the operating system and
/// the error's payload, so the contract states nothing of it.
#[verifier::external_body]
pub fn io_error_text(error: &std::io::Error) -> (text: String) {
    error.to_string()
}

/// The text `String::from_utf8_lossy` makes of bytes: their UTF-8 decoding, with each
/// invalid sequence replaced by U+FFFD.
pub uninterp spec fn lossy_text(bytes: Seq<u8>) -> Seq<char>;

/// Calls `String::from_utf8_lossy` and takes the text as a `String`. The contract only
/// ties the result to the name `lossy_text` of the bytes.
#[verifier::external_body]
pub fn decode_lossy(bytes: &[u8]) -> (text: String)
    ensures
        text@ == lossy_text(bytes@),
{
    String::from_utf8_lossy(bytes).into_owned()
}

/// The text `str::escape_debug` makes: each character escaped as `char::escape_debug`
/// escapes it, grapheme extenders left as they are except at the start.
pub uninterp spec fn debug_escaped(text: Seq<char>) -> Seq<char>;

/// Calls `str::escape_debug` and collects the escaped text. The contract only ties the
/// result to the name `debug_escaped` of the text.
#[verifier::external_body]
pub fn escape_debug_text(text: &str) -> (escaped: String)
    ensures
        escaped@ == debug_escaped(text@),
{
    text.escape_debug().to_string()
}

} // verus!

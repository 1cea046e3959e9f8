//! The Worker's minimal HTTP/1.1 request reading: the request line, the header lines
//! with their size limit and `Content-Length`, and the body limit. The caller reads the
//! lines and the body; these functions decide what each line means.
use vstd::prelude::*;
use vstd::string::StringSliceAdditionalSpecFns;

use crate::text::{split_words, trim_str, trimmed, whitespace_words};

verus! {

/// The largest size of the request line and headers together, in bytes.
pub const MAX_HEADER_BYTES: usize = 16384;

/// The largest request body, in bytes.
pub const MAX_BODY_BYTES: usize = 16777216;

/// `text` ends with `suffix`.
pub open spec fn ends_with(text: Seq<char>, suffix: Seq<char>) -> bool {
    suffix.len() <= text.len() && text.subrange(text.len() - suffix.len(), text.len() as int)
        == suffix
}

fn text_ends_with(text: &str, suffix: &str) -> (result: bool)
    ensures
        result == ends_with(text@, suffix@),
{
    let n = text.unicode_len();
    let m = suffix.unicode_len();
    if m > n {
        return false;
    }
    let tail = text.substring_char(n - m, n);
    crate::json::text_equals(tail, suffix)
}

/// What the request line gives: method and path, or why the request is refused. The
/// version must be `HTTP/1.1`, or the line must end with `HTTP/1.0` and CRLF.
pub open spec fn request_line_spec(line: Seq<char>) -> Result<(Seq<char>, Seq<char>), &'static str> {
    let words = whitespace_words(line);
    if words.len() == 0 {
        Err("missing method")
    } else if words.len() == 1 {
        Err("missing path")
    } else if !(words.len() > 2 && words[2] == "HTTP/1.1"@) && !ends_with(line, "HTTP/1.0\r\n"@) {
        Err("invalid HTTP version")
    } else {
        Ok((words[0], words[1]))
    }
}

/// A request line of a method, a space, a path, a space and `HTTP/1.1` with its line
/// ending gives that method and that path, whatever they are, as long as neither is
/// empty or holds whitespace.
pub proof fn lemma_request_line_gives_method_and_path(method: Seq<char>, path: Seq<char>)
    requires
        method.len() > 0,
        path.len() > 0,
        crate::text::no_whitespace(method),
        crate::text::no_whitespace(path),
    ensures
        request_line_spec(method + " "@ + path + " HTTP/1.1\r\n"@) == Ok::<
            (Seq<char>, Seq<char>),
            &'static str,
        >((method, path)),
{
    reveal_strlit(" ");
    reveal_strlit(" HTTP/1.1\r\n");
    reveal_strlit("HTTP/1.1");
    let version = "HTTP/1.1"@;
    let ending = seq!['\r', '\n'];
    let line = method + " "@ + path + " HTTP/1.1\r\n"@;
    assert(crate::text::is_unicode_whitespace(' '));
    assert(crate::text::no_whitespace(version)) by {
        assert forall|i: int| 0 <= i < version.len() implies !crate::text::is_unicode_whitespace(
            #[trigger] version[i],
        ) by {}
    }
    crate::text::lemma_single_word(method);
    crate::text::lemma_single_word(path);
    crate::text::lemma_single_word(version);
    let tail = version + ending;
    assert(tail.drop_last() =~= version.push('\r'));
    assert(version.push('\r').drop_last() =~= version);
    assert(whitespace_words(version.push('\r')) == whitespace_words(version));
    assert(whitespace_words(tail) == seq![version]);
    crate::text::lemma_words_split(path, ' ', tail);
    crate::text::lemma_words_split(method, ' ', path + seq![' '] + tail);
    assert(line =~= method + seq![' '] + (path + seq![' '] + tail));
    let words = whitespace_words(line);
    assert(words =~= seq![method] + (seq![path] + seq![version]));
    assert(words.len() == 3 && words[0] == method && words[1] == path && words[2] == version);
}

/// Reads the request line.
pub fn parse_request_line(line: &str) -> (result: Result<(String, String), &'static str>)
    ensures
        match request_line_spec(line@) {
            Ok((method, path)) => result matches Ok((m, p)) && m@ == method && p@ == path,
            Err(message) => result == Err::<(String, String), &'static str>(message),
        },
{
    let words = split_words(line);
    if words.len() == 0 {
        return Err("missing method");
    }
    if words.len() == 1 {
        return Err("missing path");
    }
    let version_ok = words.len() > 2 && crate::json::text_equals(words[2].as_str(), "HTTP/1.1");
    if !version_ok && !text_ends_with(line, "HTTP/1.0\r\n") {
        return Err("invalid HTTP version");
    }
    Ok((words[0].clone(), words[1].clone()))
}

pub open spec fn is_digit(c: char) -> bool {
    '0' <= c <= '9'
}

/// The value of a run of decimal digits.
pub open spec fn digits_value(digits: Seq<char>) -> nat
    decreases digits.len(),
{
    if digits.len() == 0 {
        0
    } else {
        digits_value(digits.drop_last()) * 10 + (digits.last() as nat - '0' as nat) as nat
    }
}

/// What `str::parse::<usize>` gives: an optional `+`, then one or more decimal digits
/// whose value fits in a `usize`.
pub open spec fn sign_dropped(text: Seq<char>) -> Seq<char> {
    if text.len() > 0 && text[0] == '+' {
        text.drop_first()
    } else {
        text
    }
}

pub open spec fn all_digits(digits: Seq<char>) -> bool {
    forall|i: int| 0 <= i < digits.len() ==> is_digit(#[trigger] digits[i])
}

pub open spec fn usize_text(text: Seq<char>) -> Option<usize> {
    let digits = sign_dropped(text);
    if digits.len() == 0 || !all_digits(digits) {
        None
    } else if digits_value(digits) > usize::MAX {
        None
    } else {
        Some(digits_value(digits) as usize)
    }
}

proof fn lemma_digits_value_grows(digits: Seq<char>, i: int)
    requires
        0 <= i <= digits.len(),
        forall|k: int| 0 <= k < digits.len() ==> is_digit(#[trigger] digits[k]),
    ensures
        digits_value(digits.take(i)) <= digits_value(digits),
    decreases digits.len() - i,
{
    if i < digits.len() {
        lemma_digits_value_grows(digits, i + 1);
        assert(digits.take(i + 1).drop_last() =~= digits.take(i));
    } else {
        assert(digits.take(i) =~= digits);
    }
}

/// Reads a `usize` written in decimal.
pub fn parse_usize(text: &str) -> (result: Option<usize>)
    ensures
        result == usize_text(text@),
{
    let n = text.unicode_len();
    let mut start: usize = 0;
    if n > 0 && text.get_char(0) == '+' {
        start = 1;
    }
    let ghost digits = sign_dropped(text@);
    assert(digits =~= text@.subrange(start as int, n as int));
    if start == n {
        assert(digits.len() == 0);
        assert(usize_text(text@) is None);
        return None;
    }
    let mut value: usize = 0;
    let mut i: usize = start;
    while i < n
        invariant
            start <= i <= n,
            n == text@.len(),
            digits == text@.subrange(start as int, n as int),
            digits == sign_dropped(text@),
            forall|k: int| 0 <= k < i - start ==> is_digit(#[trigger] digits[k]),
            value == digits_value(digits.take(i - start)),
        decreases n - i,
    {
        let c = text.get_char(i);
        if !('0' <= c && c <= '9') {
            assert(!is_digit(digits[i - start]));
            assert(!all_digits(digits));
            assert(usize_text(text@) is None);
            return None;
        }
        proof {
            assert(digits.take(i - start + 1).drop_last() =~= digits.take(i - start));
        }
        let d = (c as u32 - '0' as u32) as usize;
        if value > (usize::MAX - d) / 10 {
            proof {
                let next = digits_value(digits.take(i - start + 1));
                assert(next == value * 10 + d) by {
                    assert(digits.take(i - start + 1).last() == c);
                }
                assert(next > usize::MAX) by (nonlinear_arith)
                    requires
                        next == value * 10 + d,
                        value > (usize::MAX - d) / 10,
                        d <= 9,
                ;
                if all_digits(digits) {
                    lemma_digits_value_grows(digits, i - start + 1);
                }
            }
            return None;
        }
        value = value * 10 + d;
        proof {
            assert(digits.take(i - start + 1).last() == c);
        }
        i = i + 1;
    }
    assert(digits.take(n - start) =~= digits);
    Some(value)
}

/// `name` is `Content-Length` in any ASCII case.
pub open spec fn is_content_length(name: Seq<char>) -> bool {
    let target = "content-length"@;
    name.len() == target.len() && forall|i: int|
        0 <= i < name.len() ==> #[trigger] ascii_lower(name[i]) == target[i]
}

pub open spec fn ascii_lower(c: char) -> char {
    if 'A' <= c <= 'Z' {
        ((c as u8) + 32) as char
    } else {
        c
    }
}

fn lower(c: char) -> (l: char)
    ensures
        l == ascii_lower(c),
{
    if 'A' <= c && c <= 'Z' {
        ((c as u8) + 32) as char
    } else {
        c
    }
}

fn names_content_length(name: &str) -> (result: bool)
    ensures
        result == is_content_length(name@),
{
    let target = "content-length";
    proof {
        reveal_strlit("content-length");
    }
    let n = name.unicode_len();
    if n != target.unicode_len() {
        return false;
    }
    let mut i: usize = 0;
    while i < n
        invariant
            i <= n,
            n == name@.len(),
            n == target@.len(),
            target@ == "content-length"@,
            forall|k: int| 0 <= k < i ==> #[trigger] ascii_lower(name@[k]) == target@[k],
        decreases n - i,
    {
        if lower(name.get_char(i)) != target.get_char(i) {
            return false;
        }
        i = i + 1;
    }
    true
}

/// The position of the first `:` in `text`, if any.
pub open spec fn first_colon(text: Seq<char>) -> Option<int> {
    if exists|k: int| 0 <= k < text.len() && text[k] == ':' {
        Some(choose|k: int| 0 <= k < text.len() && text[k] == ':' && forall|j: int| 0 <= j < k ==> text[j] != ':')
    } else {
        None
    }
}

fn find_colon(text: &str) -> (found: Option<usize>)
    ensures
        match found {
            Some(k) => k < text@.len() && text@[k as int] == ':' && forall|j: int| 0 <= j < k ==> text@[j] != ':',
            None => forall|k: int| 0 <= k < text@.len() ==> text@[k] != ':',
        },
{
    let n = text.unicode_len();
    let mut k: usize = 0;
    while k < n
        invariant
            k <= n,
            n == text@.len(),
            forall|j: int| 0 <= j < k ==> text@[j] != ':',
        decreases n - k,
    {
        if text.get_char(k) == ':' {
            return Some(k);
        }
        k = k + 1;
    }
    None
}

/// How the request so far is going: the bytes of the request line and the header lines
/// read, and the body length the headers announced.
#[derive(Debug, Clone, Copy, PartialEq, Eq, Structural)]
pub struct RequestReader {
    pub header_bytes: usize,
    pub length: usize,
}

/// What one header line does: the reader after it, and whether the headers ended.
pub open spec fn header_line_spec(reader: RequestReader, line: Seq<char>, line_bytes: nat) -> Result<(RequestReader, bool), &'static str> {
    let total = reader.header_bytes + line_bytes;
    if total > MAX_HEADER_BYTES {
        Err("headers too large")
    } else if line == "\r\n"@ || line == "\n"@ {
        Ok((RequestReader { header_bytes: total as usize, length: reader.length }, true))
    } else if line.len() == 0 {
        Err("incomplete headers")
    } else {
        match first_colon(line) {
            Some(k) => if is_content_length(line.subrange(0, k)) {
                match usize_text(trimmed(line.subrange(k + 1, line.len() as int))) {
                    Some(n) => Ok((RequestReader { header_bytes: total as usize, length: n }, false)),
                    None => Err("invalid content length"),
                }
            } else {
                Ok((RequestReader { header_bytes: total as usize, length: reader.length }, false))
            },
            None => Ok((RequestReader { header_bytes: total as usize, length: reader.length }, false)),
        }
    }
}

/// The header line names Content-Length: its text before the first colon is
/// `content-length` in some mix of ASCII cases.
pub open spec fn names_content_length_header(line: Seq<char>) -> bool {
    exists|k: int|
        0 <= k < line.len() && line[k] == ':' && (forall|j: int| 0 <= j < k ==> line[j] != ':')
            && #[trigger] is_content_length(line.take(k))
}

/// A colon at `i` means there is a first colon, at or before `i`.
proof fn lemma_first_colon_exists(line: Seq<char>, i: int)
    requires
        0 <= i < line.len(),
        line[i] == ':',
    ensures
        exists|k: int| 0 <= k <= i && line[k] == ':' && forall|j: int| 0 <= j < k ==> line[j] != ':',
    decreases i,
{
    if exists|j: int| 0 <= j < i && line[j] == ':' {
        let j = choose|j: int| 0 <= j < i && line[j] == ':';
        lemma_first_colon_exists(line, j);
    } else {
        assert(0 <= i <= i && line[i] == ':' && forall|j: int| 0 <= j < i ==> line[j] != ':');
    }
}

/// A header line that does not name Content-Length leaves the announced body length as
/// it was, and can only be refused for size or for being empty; either way its bytes
/// count toward the headers.
pub proof fn lemma_other_header_keeps_length(reader: RequestReader, line: Seq<char>, line_bytes: nat)
    requires
        !names_content_length_header(line),
    ensures
        header_line_spec(reader, line, line_bytes) matches Ok((next, _)) ==> {
            &&& next.length == reader.length
            &&& next.header_bytes == reader.header_bytes + line_bytes
        },
        header_line_spec(reader, line, line_bytes) matches Err(message) ==> (message == "headers too large"
            || message == "incomplete headers"),
{
    match first_colon(line) {
        Some(k) => {
            let i = choose|i: int| 0 <= i < line.len() && line[i] == ':';
            lemma_first_colon_exists(line, i);
            assert(0 <= k < line.len() && line[k] == ':' && forall|j: int| 0 <= j < k ==> line[j] != ':');
            assert(line.subrange(0, k) =~= line.take(k));
            if is_content_length(line.subrange(0, k)) {
                assert(is_content_length(line.take(k)));
                assert(names_content_length_header(line));
            }
        },
        None => {},
    }
}

/// The decimal text of `n` is a nonempty run of digits whose value is `n`.
pub proof fn lemma_decimal_digits(n: nat)
    ensures
        all_digits(crate::text::decimal(n)),
        crate::text::decimal(n).len() > 0,
        digits_value(crate::text::decimal(n)) == n,
    decreases n,
{
    let d = crate::text::decimal(n);
    let last = (n % 10) as nat;
    let b = (last + 0x30) as u8;
    assert((b as char) as int == b as int);
    assert(d.last() == b as char);
    assert('0' as nat == 48);
    assert((d.last() as nat - '0' as nat) as nat == last);
    if n < 10 {
        assert(d.drop_last() =~= Seq::<char>::empty());
        assert(digits_value(d) == digits_value(d.drop_last()) * 10 + last);
    } else {
        assert(digits_value(d) == digits_value(d.drop_last()) * 10 + last);
        lemma_decimal_digits(n / 10);
        assert(d.drop_last() =~= crate::text::decimal(n / 10));
        assert forall|i: int| 0 <= i < d.len() implies is_digit(#[trigger] d[i]) by {
            if i < d.len() - 1 {
                assert(d[i] == crate::text::decimal(n / 10)[i]);
            }
        }
        assert(n == (n / 10) * 10 + last);
    }
}

/// A Content-Length header whose value is the decimal text of `n`, after a colon and a
/// space, announces a body of `n` bytes, whatever the case of the header's name.
pub proof fn lemma_content_length_header_sets_length(
    reader: RequestReader,
    name: Seq<char>,
    n: usize,
    line_bytes: nat,
)
    requires
        is_content_length(name),
        reader.header_bytes + line_bytes <= MAX_HEADER_BYTES,
    ensures
        header_line_spec(reader, name + ": "@ + crate::text::decimal(n as nat) + "\r\n"@, line_bytes)
            == Ok::<(RequestReader, bool), &'static str>(
            (RequestReader { header_bytes: (reader.header_bytes + line_bytes) as usize, length: n }, false),
        ),
{
    reveal_strlit("content-length");
    reveal_strlit(": ");
    reveal_strlit("\r\n");
    reveal_strlit("\n");
    let digits = crate::text::decimal(n as nat);
    lemma_decimal_digits(n as nat);
    let line = name + ": "@ + digits + "\r\n"@;
    let k = name.len() as int;
    assert(name.len() == 14);
    assert forall|j: int| 0 <= j < k implies line[j] != ':' by {
        assert(line[j] == name[j]);
        assert(ascii_lower(name[j]) == "content-length"@[j]);
    }
    assert(line[k] == ':');
    lemma_first_colon_exists(line, k);
    assert(first_colon(line) == Some(k));
    assert(line.subrange(0, k) =~= name);
    let value = line.subrange(k + 1, line.len() as int);
    assert(value =~= seq![' '] + digits + seq!['\r', '\n']);
    assert(!crate::text::is_unicode_whitespace(digits[0])) by {
        assert(is_digit(digits[0]));
    }
    assert(!crate::text::is_unicode_whitespace(digits.last())) by {
        assert(is_digit(digits[digits.len() - 1]));
    }
    let inner = digits + seq!['\r', '\n'];
    assert(value.drop_first() =~= inner);
    assert(crate::text::trim_start(inner) == inner);
    assert(crate::text::trim_start(value) == inner);
    assert(inner.drop_last() =~= digits + seq!['\r']);
    assert((digits + seq!['\r']).drop_last() =~= digits);
    assert(crate::text::trim_end(digits) == digits);
    assert(crate::text::trim_end(digits + seq!['\r']) == digits);
    assert(crate::text::trim_end(inner) == digits);
    assert(trimmed(value) == digits);
    assert(sign_dropped(digits) == digits) by {
        assert(is_digit(digits[0]));
    }
    assert(line.len() > 2);
    assert(line != "\r\n"@ && line != "\n"@);
}

impl RequestReader {
    /// The reader after the request line.
    pub fn start(request_line: &str) -> (reader: Self)
        requires
            request_line.spec_bytes().len() <= usize::MAX,
        ensures
            reader.header_bytes == request_line.spec_bytes().len(),
            reader.length == 0,
    {
        RequestReader { header_bytes: request_line.len(), length: 0 }
    }

    /// Takes one header line (with its line ending); true once the blank line ending
    /// the headers is read.
    pub fn take_line(&mut self, line: &str) -> (result: Result<bool, &'static str>)
        requires
            line.spec_bytes().len() <= usize::MAX,
        ensures
            match header_line_spec(*old(self), line@, line.spec_bytes().len()) {
                Ok((next, done)) => result == Ok::<bool, &'static str>(done) && *final(self) == next,
                Err(message) => result == Err::<bool, &'static str>(message),
            },
            !names_content_length_header(line@) && result is Ok ==> final(self).length
                == old(self).length,
    {
        proof {
            if !names_content_length_header(line@) {
                lemma_other_header_keeps_length(*self, line@, line.spec_bytes().len());
            }
        }
        let bytes = line.len();
        if self.header_bytes > MAX_HEADER_BYTES || bytes > MAX_HEADER_BYTES - self.header_bytes {
            return Err("headers too large");
        }
        let total = self.header_bytes + bytes;
        if crate::json::text_equals(line, "\r\n") || crate::json::text_equals(line, "\n") {
            self.header_bytes = total;
            return Ok(true);
        }
        if line.unicode_len() == 0 {
            return Err("incomplete headers");
        }
        match find_colon(line) {
            Some(k) => {
                let n = line.unicode_len();
                let name = line.substring_char(0, k);
                proof {
                    assert(first_colon(line@) == Some(k as int));
                }
                if names_content_length(name) {
                    let value = line.substring_char(k + 1, n);
                    match parse_usize(trim_str(value)) {
                        Some(length) => {
                            self.header_bytes = total;
                            self.length = length;
                            Ok(false)
                        },
                        None => Err("invalid content length"),
                    }
                } else {
                    self.header_bytes = total;
                    Ok(false)
                }
            },
            None => {
                self.header_bytes = total;
                Ok(false)
            },
        }
    }

    /// The body length, once the headers have ended, unless it is over the limit.
    pub fn body_length(&self) -> (result: Result<usize, &'static str>)
        ensures
            self.length > MAX_BODY_BYTES ==> result == Err::<usize, &'static str>("body too large"),
            self.length <= MAX_BODY_BYTES ==> result == Ok::<usize, &'static str>(self.length),
    {
        if self.length > MAX_BODY_BYTES {
            Err("body too large")
        } else {
            Ok(self.length)
        }
    }
}

} // verus!

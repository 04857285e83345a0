//! Turning the bytes of a file into lines of text.

use crate::error::LogSearchError;
use crate::model::string_views;
use crate::text::ascii_lowered;
use crate::text::str_eq;
use crate::text::to_ascii_lowercase;
use chardetng::EncodingDetector;
use encoding_rs::Encoding;
use std::path::Path;
use vstd::prelude::*;
use vstd::slice::slice_subrange;
use vstd::string::StringExecFns;
use vstd::utf8::decode_utf8;
use vstd::utf8::valid_utf8;

verus! {

/// The `encoding_rs` crate's character encoding. Proofs see nothing inside it.
#[verifier::external_type_specification]
#[verifier::external_body]
pub struct ExEncoding(Encoding);

/// The name of an encoding, as `Encoding::name` gives it.
pub uninterp spec fn encoding_name(encoding: Encoding) -> Seq<char>;

/// The name of the encoding that `chardetng` guesses for bytes that are fed
/// to it as a whole stream, with no domain given and UTF-8 allowed.
pub uninterp spec fn guessed_name(bytes: Seq<u8>) -> Seq<char>;

/// What `Encoding::decode` makes of bytes under the encoding of a name.
pub uninterp spec fn decoded(name: Seq<char>, bytes: Seq<u8>) -> Seq<char>;

/// The text with which `String::from_utf8` refuses bytes that are not
/// well-formed UTF-8.
pub uninterp spec fn utf8_refusal(bytes: Seq<u8>) -> Seq<char>;

/// What `Path::extension` gives for a path, as text, under the path rules of
/// the platform that the library is built for.
pub uninterp spec fn extension_of(path: Seq<char>) -> Option<Seq<char>>;

/// The longest input that is handed to `Encoding::decode`, which reserves up
/// to three bytes for each byte of input.
pub open spec fn decodable_len() -> int {
    (usize::MAX / 8) as int
}

/// Gives `encoding_rs::UTF_8`. Trusted: its name.
#[verifier::external_body]
pub(crate) fn utf8_encoding() -> (e: &'static Encoding)
    ensures
        encoding_name(*e) == "UTF-8"@,
{
    encoding_rs::UTF_8
}

/// Gives `encoding_rs::UTF_16LE`. Trusted: its name.
#[verifier::external_body]
pub(crate) fn utf16le_encoding() -> (e: &'static Encoding)
    ensures
        encoding_name(*e) == "UTF-16LE"@,
{
    encoding_rs::UTF_16LE
}

/// Gives `encoding_rs::UTF_16BE`. Trusted: its name.
#[verifier::external_body]
pub(crate) fn utf16be_encoding() -> (e: &'static Encoding)
    ensures
        encoding_name(*e) == "UTF-16BE"@,
{
    encoding_rs::UTF_16BE
}

/// Calls `Encoding::name`. Trusted: the text is the one that `encoding_name`
/// names.
#[verifier::external_body]
pub(crate) fn name_of(encoding: &'static Encoding) -> (name: String)
    ensures
        name@ == encoding_name(*encoding),
{
    encoding.name().to_string()
}

/// Feeds the bytes to a new `EncodingDetector` as a whole stream and asks for
/// its guess, with no domain and UTF-8 allowed. Trusted: the guess has the
/// name that `guessed_name` names.
#[verifier::external_body]
pub(crate) fn guess_encoding(bytes: &[u8]) -> (e: &'static Encoding)
    ensures
        encoding_name(*e) == guessed_name(bytes@),
{
    let mut detector = EncodingDetector::new();
    detector.feed(bytes, true);
    detector.guess(None, true)
}

/// Calls `Encoding::decode` and keeps the text. Trusted: the text is the one
/// that `decoded` names for the encoding's name and the bytes. Longer input
/// is left out, for the call may fail on it.
#[verifier::external_body]
pub(crate) fn decode_bytes(encoding: &'static Encoding, bytes: &[u8]) -> (text: String)
    requires
        bytes@.len() <= decodable_len(),
    ensures
        text@ == decoded(encoding_name(*encoding), bytes@),
{
    encoding.decode(bytes).0.into_owned()
}

/// Calls `String::from_utf8` of the standard library. Trusted: it succeeds
/// on well-formed UTF-8 and on nothing else, and the text is what the bytes
/// encode; the text of its refusal is the one that `utf8_refusal` names.
#[verifier::external_body]
pub(crate) fn string_from_utf8(bytes: &[u8]) -> (r: Result<String, String>)
    ensures
        r is Ok <==> valid_utf8(bytes@),
        r matches Ok(text) ==> text@ == decode_utf8(bytes@),
        r matches Err(reason) ==> reason@ == utf8_refusal(bytes@),
{
    String::from_utf8(bytes.to_vec()).map_err(|e| e.to_string())
}

/// Calls `Path::extension` of the standard library on a path given as text.
/// Trusted: the outcome is the one that `extension_of` names.
#[verifier::external_body]
pub(crate) fn path_extension(path: &str) -> (r: Option<String>)
    ensures
        r is Some <==> extension_of(path@) is Some,
        r matches Some(ext) ==> extension_of(path@) == Some(ext@),
{
    Path::new(path).extension().and_then(|ext| ext.to_str()).map(|ext| ext.to_string())
}

/// The length of the first line of a text that is not empty: up to and with
/// its first line feed, or all of it where it has none.
pub open spec fn first_line_len<T>(text: Seq<T>, feed: T) -> int
    decreases text.len(),
{
    if text.len() == 0 {
        0
    } else if text[0] == feed {
        1
    } else {
        1 + first_line_len(text.drop_first(), feed)
    }
}

pub proof fn lemma_first_line_len<T>(text: Seq<T>, feed: T)
    ensures
        0 <= first_line_len(text, feed) <= text.len(),
        text.len() > 0 ==> first_line_len(text, feed) > 0,
    decreases text.len(),
{
    if text.len() > 0 && text[0] != feed {
        lemma_first_line_len(text.drop_first(), feed);
    }
}

/// The lines of a text: each ends with its line feed, but for the last one
/// where the text does not end with a line feed. An empty text has no line.
pub open spec fn spec_split<T>(text: Seq<T>, feed: T) -> Seq<Seq<T>>
    decreases text.len(),
{
    if text.len() == 0 {
        Seq::empty()
    } else {
        let n = first_line_len(text, feed);
        proof {
            lemma_first_line_len(text, feed);
        }
        seq![text.take(n)] + spec_split(text.skip(n), feed)
    }
}

/// The pieces of a sequence, one after the other.
pub open spec fn joined<T>(pieces: Seq<Seq<T>>) -> Seq<T>
    decreases pieces.len(),
{
    if pieces.len() == 0 {
        Seq::empty()
    } else {
        pieces[0] + joined(pieces.drop_first())
    }
}

/// Splitting loses nothing: the lines of a text, one after the other, are
/// the text.
pub proof fn law_split_lossless<T>(text: Seq<T>, feed: T)
    ensures
        joined(spec_split(text, feed)) == text,
    decreases text.len(),
{
    if text.len() > 0 {
        lemma_first_line_len(text, feed);
        let n = first_line_len(text, feed);
        law_split_lossless(text.skip(n), feed);
        let lines = spec_split(text, feed);
        assert(lines.drop_first() =~= spec_split(text.skip(n), feed));
        assert(text.take(n) + text.skip(n) =~= text);
    } else {
        assert(joined(spec_split(text, feed)) =~= text);
    }
}

/// Calls `str::split_inclusive` of the standard library with the line feed
/// and copies the pieces. Trusted: the pieces are the lines of the text, each
/// with its line feed.
#[verifier::external_body]
pub(crate) fn split_text_lines(text: &str) -> (lines: Vec<String>)
    ensures
        string_views(lines@) == spec_split(text@, '\n'),
{
    text.split_inclusive('\n').map(|line| line.to_string()).collect()
}

/// The views of a sequence of byte strings, in order.
pub open spec fn byte_views(items: Seq<Vec<u8>>) -> Seq<Seq<u8>> {
    items.map_values(|v: Vec<u8>| v@)
}

/// Cuts bytes into lines at each line feed, which stays with its line.
pub fn split_lines(bytes: &[u8]) -> (lines: Vec<Vec<u8>>)
    ensures
        byte_views(lines@) == spec_split(bytes@, 0x0au8),
{
    let len: usize = bytes.len();
    let mut lines: Vec<Vec<u8>> = Vec::new();
    let mut current: Vec<u8> = Vec::new();
    let mut i: usize = 0;
    let ghost mut begin: int = 0;
    proof {
        assert(byte_views(lines@) =~= Seq::<Seq<u8>>::empty());
        assert(bytes@.skip(0) =~= bytes@);
        lemma_first_line_len(bytes@, 0x0au8);
    }
    while i < len
        invariant
            len == bytes@.len(),
            0 <= begin <= i <= len,
            current@ == bytes@.subrange(begin, i as int),
            byte_views(lines@) + spec_split(bytes@.skip(begin), 0x0au8) == spec_split(
                bytes@,
                0x0au8,
            ),
            first_line_len(bytes@.skip(begin), 0x0au8) == (i - begin) + first_line_len(
                bytes@.skip(i as int),
                0x0au8,
            ),
        decreases len - i,
    {
        let b: u8 = bytes[i];
        current.push(b);
        proof {
            assert(current@ =~= bytes@.subrange(begin, i + 1));
            assert(bytes@.skip(i as int)[0] == b);
            assert(bytes@.skip(i as int).drop_first() =~= bytes@.skip(i + 1));
        }
        if b == 0x0a {
            proof {
                let tail = bytes@.skip(begin);
                lemma_first_line_len(tail, 0x0au8);
                assert(first_line_len(tail, 0x0au8) == i + 1 - begin);
                assert(tail.take(i + 1 - begin) =~= current@);
                assert(tail.skip(i + 1 - begin) =~= bytes@.skip(i + 1));
                let rest = spec_split(bytes@.skip(i + 1), 0x0au8);
                assert(byte_views(lines@.push(current)) =~= byte_views(lines@).push(current@));
                assert(byte_views(lines@).push(current@) + rest =~= byte_views(lines@) + (
                seq![current@] + rest));
                begin = i + 1;
            }
            lines.push(current);
            current = Vec::new();
            proof {
                assert(current@ =~= bytes@.subrange(begin, i + 1));
            }
        }
        i += 1;
    }
    proof {
        assert(bytes@.skip(len as int).len() == 0);
    }
    if current.len() > 0 {
        proof {
            let tail = bytes@.skip(begin);
            let done = bytes@.skip(len as int);
            assert(first_line_len(done, 0x0au8) == 0);
            assert(spec_split(done, 0x0au8) =~= Seq::<Seq<u8>>::empty());
            assert(tail.len() == len - begin);
            assert(spec_split(tail, 0x0au8) == seq![tail.take(len - begin)] + spec_split(
                tail.skip(len - begin),
                0x0au8,
            ));
            assert(tail.take(len - begin) =~= current@);
            assert(tail.skip(len - begin) =~= bytes@.skip(len as int));
            assert(byte_views(lines@.push(current)) =~= byte_views(lines@).push(current@));
            assert(byte_views(lines@).push(current@) + Seq::<Seq<u8>>::empty() =~= byte_views(
                lines@,
            ) + (seq![current@] + Seq::<Seq<u8>>::empty()));
            assert(byte_views(lines@).push(current@) + Seq::<Seq<u8>>::empty() =~= byte_views(
                lines@,
            ).push(current@));
        }
        lines.push(current);
    } else {
        proof {
            assert(begin == len);
            assert(spec_split(bytes@.skip(begin), 0x0au8) =~= Seq::<Seq<u8>>::empty());
            assert(byte_views(lines@) + Seq::<Seq<u8>>::empty() =~= byte_views(lines@));
        }
    }
    lines
}



/// `bytes` begins with `mark`.
pub open spec fn begins_with(bytes: Seq<u8>, mark: Seq<u8>) -> bool {
    mark.len() <= bytes.len() && bytes.take(mark.len() as int) == mark
}

/// The name of the encoding of a file and the length of its byte order mark,
/// told from the first bytes of the file: a mark settles the encoding, and
/// without one the encoding is guessed.
pub open spec fn spec_detect(prefix: Seq<u8>) -> (Seq<char>, int) {
    if begins_with(prefix, seq![0xefu8, 0xbbu8, 0xbfu8]) {
        ("UTF-8"@, 3)
    } else if begins_with(prefix, seq![0xffu8, 0xfeu8]) {
        ("UTF-16LE"@, 2)
    } else if begins_with(prefix, seq![0xfeu8, 0xffu8]) {
        ("UTF-16BE"@, 2)
    } else {
        (guessed_name(prefix), 0)
    }
}

/// The label under which an encoding is reported: `GBK` for `gb18030` and
/// `gbk` in any case, else the name of the encoding.
pub open spec fn spec_label(name: Seq<char>) -> Seq<char> {
    if ascii_lowered(name) == "gb18030"@ || ascii_lowered(name) == "gbk"@ {
        "GBK"@
    } else {
        name
    }
}

/// Whether a path names a gzip file: its extension is `gz`.
pub open spec fn spec_is_gz(path: Seq<char>) -> bool {
    extension_of(path) == Some("gz"@)
}

/// Whether a name is that of UTF-16, in either byte order.
pub open spec fn is_utf16(name: Seq<char>) -> bool {
    name == "UTF-16LE"@ || name == "UTF-16BE"@
}

/// The number of bytes at the head of a file from which its encoding is told.
pub open spec fn probe_len(len: int) -> int {
    if len < 8192 {
        len
    } else {
        8192
    }
}

/// Tells whether a path names a gzip file.
pub fn is_gz(path: &str) -> (b: bool)
    ensures
        b == spec_is_gz(path@),
{
    match path_extension(path) {
        Some(ext) => str_eq(ext.as_str(), "gz"),
        None => false,
    }
}

/// Tells the encoding of a file and the length of its byte order mark from
/// the first bytes of the file.
pub fn detect_from_prefix(prefix: &[u8]) -> (r: (&'static Encoding, usize))
    ensures
        encoding_name(*r.0) == spec_detect(prefix@).0,
        r.1 == spec_detect(prefix@).1,
        r.1 <= prefix@.len(),
{
    let len: usize = prefix.len();
    if len >= 3 && prefix[0] == 0xef && prefix[1] == 0xbb && prefix[2] == 0xbf {
        proof {
            assert(prefix@.take(3) =~= seq![0xefu8, 0xbbu8, 0xbfu8]);
        }
        return (utf8_encoding(), 3);
    }
    proof {
        if begins_with(prefix@, seq![0xefu8, 0xbbu8, 0xbfu8]) {
            let head = prefix@.take(3);
            assert(head[0] == 0xef && head[1] == 0xbb && head[2] == 0xbf);
        }
    }
    if len >= 2 && prefix[0] == 0xff && prefix[1] == 0xfe {
        proof {
            assert(prefix@.take(2) =~= seq![0xffu8, 0xfeu8]);
        }
        return (utf16le_encoding(), 2);
    }
    proof {
        if begins_with(prefix@, seq![0xffu8, 0xfeu8]) {
            let head = prefix@.take(2);
            assert(head[0] == 0xff && head[1] == 0xfe);
        }
    }
    if len >= 2 && prefix[0] == 0xfe && prefix[1] == 0xff {
        proof {
            assert(prefix@.take(2) =~= seq![0xfeu8, 0xffu8]);
        }
        return (utf16be_encoding(), 2);
    }
    proof {
        if begins_with(prefix@, seq![0xfeu8, 0xffu8]) {
            let head = prefix@.take(2);
            assert(head[0] == 0xfe && head[1] == 0xff);
        }
    }
    (guess_encoding(prefix), 0)
}

/// Tells the label under which the encoding of a file is reported, from the
/// first bytes of the file.
pub fn detect_label(prefix: &[u8]) -> (label: String)
    ensures
        label@ == spec_label(spec_detect(prefix@).0),
{
    let (encoding, _) = detect_from_prefix(prefix);
    let name = name_of(encoding);
    let lowered = to_ascii_lowercase(name.as_str());
    if str_eq(lowered.as_str(), "gb18030") || str_eq(lowered.as_str(), "gbk") {
        String::from_str("GBK")
    } else {
        name
    }
}

/// How the bytes of a file become lines.
#[derive(Debug, Clone, Copy)]
pub enum ReadPlan {
    /// The file is inflated, cut at its line feeds, and each line must be
    /// well-formed UTF-8.
    Gzip,
    /// After `skip` bytes the rest of the file is decoded as a whole and the
    /// text is cut at its line feeds.
    Whole { encoding: &'static Encoding, skip: usize },
    /// After `skip` bytes the rest of the file is cut at its line feeds and
    /// each line is decoded by itself.
    ByLine { encoding: &'static Encoding, skip: usize },
}

/// Whether a plan is the one for a file with this path and these first bytes:
/// a gzip file is inflated; UTF-16 is decoded as a whole; anything else line
/// by line.
pub open spec fn plan_fits(path: Seq<char>, prefix: Seq<u8>, plan: ReadPlan) -> bool {
    if spec_is_gz(path) {
        plan is Gzip
    } else if is_utf16(spec_detect(prefix).0) {
        plan matches ReadPlan::Whole { encoding, skip } && encoding_name(*encoding) == spec_detect(
            prefix,
        ).0 && skip == spec_detect(prefix).1
    } else {
        plan matches ReadPlan::ByLine { encoding, skip } && encoding_name(*encoding)
            == spec_detect(prefix).0 && skip == spec_detect(prefix).1
    }
}

/// The texts of lines that must each be well-formed UTF-8, or the refusal
/// of the first line that is not.
pub open spec fn utf8_lines(lines: Seq<Seq<u8>>) -> Result<Seq<Seq<char>>, Seq<char>>
    decreases lines.len(),
{
    if lines.len() == 0 {
        Ok(Seq::empty())
    } else {
        match utf8_lines(lines.drop_last()) {
            Ok(texts) => if valid_utf8(lines.last()) {
                Ok(texts.push(decode_utf8(lines.last())))
            } else {
                Err(utf8_refusal(lines.last()))
            },
            Err(reason) => Err(reason),
        }
    }
}

/// The reason with which bytes too long to be decoded are refused.
pub open spec fn too_long_reason() -> Seq<char> {
    "input too long to decode"@
}

/// The texts of lines under the encoding of a name, or a refusal where one
/// of them is too long to be decoded.
pub open spec fn decoded_lines(name: Seq<char>, lines: Seq<Seq<u8>>) -> Result<
    Seq<Seq<char>>,
    Seq<char>,
>
    decreases lines.len(),
{
    if lines.len() == 0 {
        Ok(Seq::empty())
    } else {
        match decoded_lines(name, lines.drop_last()) {
            Ok(texts) => if lines.last().len() <= decodable_len() {
                Ok(texts.push(decoded(name, lines.last())))
            } else {
                Err(too_long_reason())
            },
            Err(reason) => Err(reason),
        }
    }
}

/// The lines of a file, from its path and its bytes (for a gzip file: the
/// inflated bytes), or the reason why they cannot be had.
pub open spec fn spec_read_lines(path: Seq<char>, raw: Seq<u8>) -> Result<
    Seq<Seq<char>>,
    Seq<char>,
> {
    if spec_is_gz(path) {
        utf8_lines(spec_split(raw, 0x0au8))
    } else {
        let (name, skip) = spec_detect(raw.take(probe_len(raw.len() as int)));
        let body = raw.skip(skip);
        if is_utf16(name) {
            if body.len() <= decodable_len() {
                Ok(spec_split(decoded(name, body), '\n'))
            } else {
                Err(too_long_reason())
            }
        } else {
            decoded_lines(name, spec_split(body, 0x0au8))
        }
    }
}

proof fn lemma_utf8_lines_fail(lines: Seq<Seq<u8>>, n: int)
    requires
        0 <= n <= lines.len(),
        utf8_lines(lines.take(n)) is Err,
    ensures
        utf8_lines(lines) == utf8_lines(lines.take(n)),
    decreases lines.len() - n,
{
    if n < lines.len() {
        assert(lines.take(n + 1).drop_last() =~= lines.take(n));
        lemma_utf8_lines_fail(lines, n + 1);
    } else {
        assert(lines.take(n) =~= lines);
    }
}

proof fn lemma_decoded_lines_fail(name: Seq<char>, lines: Seq<Seq<u8>>, n: int)
    requires
        0 <= n <= lines.len(),
        decoded_lines(name, lines.take(n)) is Err,
    ensures
        decoded_lines(name, lines) == decoded_lines(name, lines.take(n)),
    decreases lines.len() - n,
{
    if n < lines.len() {
        assert(lines.take(n + 1).drop_last() =~= lines.take(n));
        lemma_decoded_lines_fail(name, lines, n + 1);
    } else {
        assert(lines.take(n) =~= lines);
    }
}

/// Whether an error says that a file could not be decoded, for a reason.
pub open spec fn is_decoding_error(e: LogSearchError, path: Seq<char>, why: Seq<char>) -> bool {
    e matches LogSearchError::EncodingError { path: p, reason } && p@ == path && reason@ == why
}

fn too_long(path: &str) -> (e: LogSearchError)
    ensures
        is_decoding_error(e, path@, too_long_reason()),
{
    LogSearchError::EncodingError {
        path: String::from_str(path),
        reason: String::from_str("input too long to decode"),
    }
}

/// Reads files as lines of text.
#[derive(Debug, Clone, Copy)]
pub struct FileReader {
    /// The size of the buffer through which a file is read.
    pub buffer_size: usize,
}

impl FileReader {
    pub fn new(buffer_size: usize) -> (reader: FileReader)
        ensures
            reader.buffer_size == buffer_size,
    {
        FileReader { buffer_size }
    }

    /// Decides how a file is read, from its path and its first bytes (up to
    /// 8192 of them; none are looked at for a gzip file).
    pub fn plan(&self, path: &str, prefix: &[u8]) -> (plan: ReadPlan)
        ensures
            plan_fits(path@, prefix@, plan),
    {
        if is_gz(path) {
            return ReadPlan::Gzip;
        }
        let (encoding, skip) = detect_from_prefix(prefix);
        let name = name_of(encoding);
        if str_eq(name.as_str(), "UTF-16LE") || str_eq(name.as_str(), "UTF-16BE") {
            ReadPlan::Whole { encoding, skip }
        } else {
            ReadPlan::ByLine { encoding, skip }
        }
    }

    /// Makes text of one line of an inflated gzip file, which must be
    /// well-formed UTF-8.
    pub fn decode_gzip_line(&self, path: &str, line: &[u8]) -> (r: Result<String, LogSearchError>)
        ensures
            r is Ok <==> valid_utf8(line@),
            r matches Ok(text) ==> text@ == decode_utf8(line@),
            r matches Err(e) ==> is_decoding_error(e, path@, utf8_refusal(line@)),
    {
        match string_from_utf8(line) {
            Ok(text) => Ok(text),
            Err(reason) => Err(
                LogSearchError::EncodingError { path: String::from_str(path), reason },
            ),
        }
    }

    /// Makes text of bytes under an encoding: of one line, or of a whole file
    /// that is decoded at once. Bytes too long to be decoded are refused.
    pub fn decode(&self, path: &str, encoding: &'static Encoding, bytes: &[u8]) -> (r: Result<
        String,
        LogSearchError,
    >)
        ensures
            r is Ok <==> bytes@.len() <= decodable_len(),
            r matches Ok(text) ==> text@ == decoded(encoding_name(*encoding), bytes@),
            r matches Err(e) ==> is_decoding_error(e, path@, too_long_reason()),
    {
        if bytes.len() > usize::MAX / 8 {
            return Err(too_long(path));
        }
        Ok(decode_bytes(encoding, bytes))
    }

    /// Makes lines of the bytes of a file that is decoded as a whole: the
    /// bytes become text under the encoding, and the text is cut after each
    /// line feed. Bytes too long to be decoded are refused.
    pub fn decode_whole(&self, path: &str, encoding: &'static Encoding, bytes: &[u8]) -> (r:
        Result<Vec<String>, LogSearchError>)
        ensures
            r is Ok <==> bytes@.len() <= decodable_len(),
            r matches Ok(lines) ==> string_views(lines@) == spec_split(
                decoded(encoding_name(*encoding), bytes@),
                '\n',
            ),
            r matches Err(e) ==> is_decoding_error(e, path@, too_long_reason()),
    {
        match self.decode(path, encoding, bytes) {
            Ok(text) => Ok(split_text_lines(text.as_str())),
            Err(e) => Err(e),
        }
    }

    fn utf8_each(&self, path: &str, pieces: &Vec<Vec<u8>>) -> (r: Result<
        Vec<String>,
        LogSearchError,
    >)
        ensures
            r matches Ok(lines) ==> utf8_lines(byte_views(pieces@)) == Ok::<
                Seq<Seq<char>>,
                Seq<char>,
            >(string_views(lines@)),
            r matches Err(e) ==> utf8_lines(byte_views(pieces@)) matches Err(why)
                && is_decoding_error(e, path@, why),
    {
        let ghost all = byte_views(pieces@);
        let mut lines: Vec<String> = Vec::new();
        let mut i: usize = 0;
        proof {
            assert(all.take(0) =~= Seq::<Seq<u8>>::empty());
            assert(string_views(lines@) =~= Seq::<Seq<char>>::empty());
        }
        while i < pieces.len()
            invariant
                i <= pieces@.len(),
                all == byte_views(pieces@),
                utf8_lines(all.take(i as int)) == Ok::<Seq<Seq<char>>, Seq<char>>(string_views(lines@)),
            decreases pieces@.len() - i,
        {
            proof {
                assert(all.take(i + 1).drop_last() =~= all.take(i as int));
                assert(all.take(i + 1).last() == pieces@[i as int]@);
            }
            match self.decode_gzip_line(path, pieces[i].as_slice()) {
                Ok(text) => {
                    proof {
                        assert(string_views(lines@.push(text)) =~= string_views(lines@).push(
                            text@,
                        ));
                    }
                    lines.push(text);
                },
                Err(e) => {
                    proof {
                        lemma_utf8_lines_fail(all, i + 1);
                    }
                    return Err(e);
                },
            }
            i += 1;
        }
        proof {
            assert(all.take(pieces@.len() as int) =~= all);
        }
        Ok(lines)
    }

    fn decode_each(&self, path: &str, encoding: &'static Encoding, pieces: &Vec<Vec<u8>>) -> (r:
        Result<Vec<String>, LogSearchError>)
        ensures
            r matches Ok(lines) ==> decoded_lines(encoding_name(*encoding), byte_views(pieces@))
                == Ok::<Seq<Seq<char>>, Seq<char>>(string_views(lines@)),
            r matches Err(e) ==> decoded_lines(encoding_name(*encoding), byte_views(pieces@))
                matches Err(why) && is_decoding_error(e, path@, why),
    {
        let ghost all = byte_views(pieces@);
        let ghost name = encoding_name(*encoding);
        let mut lines: Vec<String> = Vec::new();
        let mut i: usize = 0;
        proof {
            assert(all.take(0) =~= Seq::<Seq<u8>>::empty());
            assert(string_views(lines@) =~= Seq::<Seq<char>>::empty());
        }
        while i < pieces.len()
            invariant
                i <= pieces@.len(),
                all == byte_views(pieces@),
                name == encoding_name(*encoding),
                decoded_lines(name, all.take(i as int)) == Ok::<Seq<Seq<char>>, Seq<char>>(
                    string_views(lines@),
                ),
            decreases pieces@.len() - i,
        {
            proof {
                assert(all.take(i + 1).drop_last() =~= all.take(i as int));
                assert(all.take(i + 1).last() == pieces@[i as int]@);
            }
            match self.decode(path, encoding, pieces[i].as_slice()) {
                Ok(text) => {
                    proof {
                        assert(string_views(lines@.push(text)) =~= string_views(lines@).push(
                            text@,
                        ));
                    }
                    lines.push(text);
                },
                Err(e) => {
                    proof {
                        lemma_decoded_lines_fail(name, all, i + 1);
                    }
                    return Err(e);
                },
            }
            i += 1;
        }
        proof {
            assert(all.take(pieces@.len() as int) =~= all);
        }
        Ok(lines)
    }

    /// Reads the lines of a file from its bytes (for a gzip file: its
    /// inflated bytes). Each line keeps its line feed; the last line may have
    /// none.
    pub fn read_lines(&self, path: &str, raw: &[u8]) -> (r: Result<Vec<String>, LogSearchError>)
        ensures
            r matches Ok(lines) ==> spec_read_lines(path@, raw@) == Ok::<
                Seq<Seq<char>>,
                Seq<char>,
            >(string_views(lines@)),
            r matches Err(e) ==> spec_read_lines(path@, raw@) matches Err(why)
                && is_decoding_error(e, path@, why),
    {
        let len: usize = raw.len();
        let probe: usize = if len < 8192 {
            len
        } else {
            8192
        };
        let prefix = slice_subrange(raw, 0, probe);
        proof {
            assert(raw@.subrange(0, probe as int) =~= raw@.take(probe as int));
        }
        match self.plan(path, prefix) {
            ReadPlan::Gzip => {
                let pieces = split_lines(raw);
                self.utf8_each(path, &pieces)
            },
            ReadPlan::Whole { encoding, skip } => {
                let body = slice_subrange(raw, skip, len);
                proof {
                    assert(raw@.subrange(skip as int, len as int) =~= raw@.skip(skip as int));
                }
                self.decode_whole(path, encoding, body)
            },
            ReadPlan::ByLine { encoding, skip } => {
                let body = slice_subrange(raw, skip, len);
                proof {
                    assert(raw@.subrange(skip as int, len as int) =~= raw@.skip(skip as int));
                }
                let pieces = split_lines(body);
                self.decode_each(path, encoding, &pieces)
            },
        }
    }
}

} // verus!

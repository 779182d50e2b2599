//! Which text encoding a file is in, and its text.
use crate::text::same_text;
use encoding_rs::Encoding;
use vstd::prelude::*;
use vstd::utf8;

verus! {

/// The encoding, by its name, that `chardetng` guesses for a whole file whose
/// text may be UTF-8 and of whose origin nothing is known.
pub uninterp spec fn guessed_encoding(bytes: Seq<u8>) -> Seq<char>;

/// The text that `Encoding::decode` of `encoding_rs` reads from `bytes` in the
/// encoding of this name, and whether it had to replace malformed sequences.
/// `None` if no encoding has this name.
pub uninterp spec fn decoded(name: Seq<char>, bytes: Seq<u8>) -> Option<(Seq<char>, bool)>;

/// Some encoding of `encoding_rs` has this name.
pub open spec fn known(name: Seq<char>) -> bool {
    forall|bytes: Seq<u8>| (#[trigger] decoded(name, bytes)) is Some
}

/// The encoding that the byte order mark at the start of `bytes` tells, if
/// there is one.
pub open spec fn marked_encoding(bytes: Seq<u8>) -> Option<Seq<char>> {
    if seq![0xefu8, 0xbbu8, 0xbfu8].is_prefix_of(bytes) {
        Some("UTF-8"@)
    } else if seq![0xffu8, 0xfeu8].is_prefix_of(bytes) {
        Some("UTF-16LE"@)
    } else if seq![0xfeu8, 0xffu8].is_prefix_of(bytes) {
        Some("UTF-16BE"@)
    } else {
        None
    }
}

/// A length that `Encoding::decode` can take: a text of three times as many bytes,
/// and a few more, still has a size.
pub open spec fn decodable_len(len: nat) -> bool {
    len < usize::MAX / 8
}

/// `Encoding::for_bom` tells the encoding from a byte order mark at the start,
/// and nothing without one. The encoding is given by its name, which
/// `Encoding::for_label` knows as it knows every name.
#[verifier::external_body]
fn encoding_of_mark(bytes: &[u8]) -> (name: Option<String>)
    ensures
        (name matches Some(n) ==> marked_encoding(bytes@) == Some(n@) && known(n@)),
        name is None <==> marked_encoding(bytes@) is None,
{
    Encoding::for_bom(bytes).map(|found| found.0.name().to_string())
}

/// `EncodingDetector::guess` of `chardetng`, on a detector that was fed the
/// whole of `bytes`, picks an encoding by the bytes alone. The encoding is given
/// by its name, which `Encoding::for_label` knows as it knows every name.
#[verifier::external_body]
fn guess_encoding(bytes: &[u8]) -> (name: String)
    ensures
        name@ == guessed_encoding(bytes@),
        known(name@),
{
    let mut detector = chardetng::EncodingDetector::new();
    detector.feed(bytes, true);
    detector.guess(None, true).name().to_string()
}

/// `Encoding::decode`, on the encoding that `Encoding::for_label` finds by its
/// name, reads the text of `bytes` and tells whether it met malformed sequences.
/// GB18030 is among the names that are found.
#[verifier::external_body]
fn decode(name: &str, bytes: &[u8]) -> (text: Option<(String, bool)>)
    requires
        decodable_len(bytes@.len()),
    ensures
        (text matches Some(t) ==> decoded(name@, bytes@) == Some((t.0@, t.1))),
        text is None <==> decoded(name@, bytes@) is None,
        name@ == "GB18030"@ ==> text is Some,
{
    let encoding = Encoding::for_label(name.as_bytes())?;
    let (text, _, had_errors) = encoding.decode(bytes);
    Some((text.into_owned(), had_errors))
}

/// The encoding that stands in for a guess of EUC-JP or EUC-KR wherever the
/// bytes are free of errors in it.
pub open spec fn fallback() -> Seq<char> {
    "GB18030"@
}

/// The guesses that a clean reading as GB18030 is preferred to.
pub open spec fn doubtful(guess: Seq<char>) -> bool {
    guess == "EUC-JP"@ || guess == "EUC-KR"@
}

/// The encoding that is settled on: that of the byte order mark, else the
/// guess, unless the guess is doubtful and the bytes read as GB18030 without
/// errors.
pub open spec fn settled_encoding(
    mark: Option<Seq<char>>,
    guess: Seq<char>,
    clean_fallback: bool,
) -> Seq<char> {
    match mark {
        Some(name) => name,
        None => if doubtful(guess) && clean_fallback {
            fallback()
        } else {
            guess
        },
    }
}

/// The bytes read as GB18030 without errors.
pub open spec fn reads_as_fallback(bytes: Seq<u8>) -> bool {
    decoded(fallback(), bytes) matches Some(text) && !text.1
}

/// The encoding of a file with these bytes.
pub open spec fn encoding_of(bytes: Seq<u8>) -> Seq<char> {
    settled_encoding(
        marked_encoding(bytes),
        guessed_encoding(bytes),
        reads_as_fallback(bytes),
    )
}

/// The guess, or GB18030 if the guess is EUC-JP or EUC-KR and the bytes read as
/// GB18030 without errors.
///
/// The detector can misreport EUC-JP and EUC-KR on short Chinese samples; since
/// GB18030 (a GBK/GB2312 superset) is by far the most common legacy encoding
/// for data files, a clean GB18030 reading is preferred over those guesses.
pub fn prefer_gb18030(guess: String, had_errors: bool) -> (name: String)
    ensures
        name@ == settled_encoding(None, guess@, !had_errors),
{
    if !had_errors && is_doubtful(guess.as_str()) {
        "GB18030".to_owned()
    } else {
        guess
    }
}

/// Whether a clean reading as GB18030 is preferred to this guess.
pub fn is_doubtful(guess: &str) -> (doubt: bool)
    ensures
        doubt == doubtful(guess@),
{
    same_text(guess, "EUC-JP") || same_text(guess, "EUC-KR")
}

/// Detect the encoding of a byte stream, by its name. Byte order marks take
/// priority; otherwise a statistical detector is used, which handles
/// GBK/GB2312/GB18030, Big5, Shift_JIS, EUC-KR, and other legacy encodings.
pub fn detect_encoding(bytes: &[u8]) -> (name: String)
    requires
        decodable_len(bytes@.len()),
    ensures
        name@ == encoding_of(bytes@),
        decoded(name@, bytes@) is Some,
{
    if let Some(name) = encoding_of_mark(bytes) {
        return name;
    }
    let guess = guess_encoding(bytes);
    if is_doubtful(guess.as_str()) {
        if let Some((_, had_errors)) = decode("GB18030", bytes) {
            return prefer_gb18030(guess, had_errors);
        }
    }
    guess
}

/// The text of `bytes` in the encoding that is detected for them.
pub open spec fn decoded_text(bytes: Seq<u8>) -> Seq<char> {
    (decoded(encoding_of(bytes), bytes)->0).0
}

/// The text of `bytes` in the encoding that is detected for them, as UTF-8.
pub(crate) fn transcode(bytes: &[u8]) -> (utf8_bytes: Vec<u8>)
    requires
        decodable_len(bytes@.len()),
    ensures
        utf8_bytes@ == utf8::encode_utf8(decoded_text(bytes@)),
{
    let name = detect_encoding(bytes);
    match decode(name.as_str(), bytes) {
        Some((text, _)) => text.as_str().as_bytes_vec(),
        None => Vec::new(),
    }
}

/// A byte order mark decides the encoding. Without one it is the guess, but that a guess
/// of EUC-JP or EUC-KR gives way to GB18030 where the bytes read as that without errors.
pub proof fn lemma_encoding_is_settled(bytes: Seq<u8>)
    ensures
        bytes.len() >= 3 && bytes[0] == 0xef && bytes[1] == 0xbb && bytes[2] == 0xbf
            ==> encoding_of(bytes) == "UTF-8"@,
        bytes.len() >= 2 && bytes[0] == 0xff && bytes[1] == 0xfe ==> encoding_of(bytes)
            == "UTF-16LE"@,
        bytes.len() >= 2 && bytes[0] == 0xfe && bytes[1] == 0xff ==> encoding_of(bytes)
            == "UTF-16BE"@,
        ({
            let marked = bytes.len() >= 3 && bytes[0] == 0xef && bytes[1] == 0xbb && bytes[2]
                == 0xbf || bytes.len() >= 2 && (bytes[0] == 0xff && bytes[1] == 0xfe || bytes[0]
                == 0xfe && bytes[1] == 0xff);
            let guess = guessed_encoding(bytes);
            let clean = decoded("GB18030"@, bytes) is Some && !(decoded("GB18030"@, bytes)->0).1;
            !marked ==> encoding_of(bytes) == (if clean && (guess == "EUC-JP"@ || guess
                == "EUC-KR"@) {
                "GB18030"@
            } else {
                guess
            })
        }),
{
    let utf8_mark = seq![0xefu8, 0xbbu8, 0xbfu8];
    let le = seq![0xffu8, 0xfeu8];
    let be = seq![0xfeu8, 0xffu8];
    if bytes.len() >= 3 {
        assert(bytes.take(3).len() == 3);
        if bytes[0] == 0xef && bytes[1] == 0xbb && bytes[2] == 0xbf {
            assert(bytes.take(3) =~= utf8_mark);
            assert(utf8_mark.is_prefix_of(bytes));
        }
    }
    if utf8_mark.is_prefix_of(bytes) {
        assert(bytes[0] == utf8_mark[0] && bytes[1] == utf8_mark[1] && bytes[2] == utf8_mark[2]);
    }
    if le.is_prefix_of(bytes) {
        assert(bytes[0] == le[0] && bytes[1] == le[1]);
    }
    if be.is_prefix_of(bytes) {
        assert(bytes[0] == be[0] && bytes[1] == be[1]);
    }
    if bytes.len() >= 2 {
        if bytes[0] == 0xff && bytes[1] == 0xfe {
            assert(bytes.take(2) =~= le);
            assert(le.is_prefix_of(bytes));
        }
        if bytes[0] == 0xfe && bytes[1] == 0xff {
            assert(bytes.take(2) =~= be);
            assert(be.is_prefix_of(bytes));
        }
    }
}

} // verus!

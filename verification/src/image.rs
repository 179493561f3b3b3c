//! Images that a request names by address: which addresses are allowed, and
//! what the response to a download must look like.
use base64::engine::general_purpose::STANDARD;
use base64::Engine;
use vstd::prelude::*;

use crate::error::{BridgeError, BridgeErrorView};
use crate::text::{
    before, before_ends_at_stop, before_keeps_text_without_stop, has_prefix, is_trimmed_at,
    is_white_space, optional_text, text_before, trim, trimmed, trimming_keeps_trimmed,
    trimming_takes_white_space_alone,
};

verus! {

/// What `reqwest::Url::parse` makes of a text: the scheme of the URL, or the
/// reason why the text is none.
pub uninterp spec fn parsed_scheme(url: Seq<char>) -> Result<Seq<char>, Seq<char>>;

/// A `reqwest::StatusCode` as it is displayed: the code and its phrase.
pub uninterp spec fn status_line(code: u16) -> Seq<char>;

/// A text that may be missing for a reason.
pub open spec fn outcome_text(outcome: Result<String, String>) -> Result<Seq<char>, Seq<char>> {
    match outcome {
        Ok(text) => Ok(text@),
        Err(reason) => Err(reason@),
    }
}

/// Calls `reqwest::Url::parse` and takes the scheme of the URL, or the
/// displayed error. The name [`parsed_scheme`] stands for either.
#[verifier::external_body]
fn url_scheme(url: &str) -> (scheme: Result<String, String>)
    ensures
        outcome_text(scheme) == parsed_scheme(url@),
{
    match reqwest::Url::parse(url) {
        Ok(parsed) => Ok(parsed.scheme().to_owned()),
        Err(error) => Err(error.to_string()),
    }
}

/// Displays the `reqwest::StatusCode` with this code, which the crate accepts
/// from 100 to 999. The name [`status_line`] stands for the text.
#[verifier::external_body]
fn status_text(code: u16) -> (line: String)
    requires
        100 <= code <= 999,
    ensures
        line@ == status_line(code),
{
    reqwest::StatusCode::from_u16(code).expect("a status from 100 to 999").to_string()
}

/// A digit of the standard base64 alphabet.
pub open spec fn base64_digit(v: int) -> char {
    if v < 26 {
        (65 + v) as char
    } else if v < 52 {
        (97 + (v - 26)) as char
    } else if v < 62 {
        (48 + (v - 52)) as char
    } else if v == 62 {
        '+'
    } else {
        '/'
    }
}

/// A byte of a sequence, zero behind its end.
pub open spec fn padded_byte(bytes: Seq<u8>, i: int) -> int {
    if 0 <= i < bytes.len() {
        bytes[i] as int
    } else {
        0
    }
}

/// The six bits that make up digit `k`: digits come in groups of four, each
/// from three bytes.
pub open spec fn six_bits(bytes: Seq<u8>, k: int) -> int {
    let i = k / 4 * 3;
    let a = padded_byte(bytes, i);
    let b = padded_byte(bytes, i + 1);
    let c = padded_byte(bytes, i + 2);
    if k % 4 == 0 {
        a / 4
    } else if k % 4 == 1 {
        a % 4 * 16 + b / 16
    } else if k % 4 == 2 {
        b % 16 * 4 + c / 64
    } else {
        c % 64
    }
}

/// How long the base64 text of so many bytes is.
pub open spec fn base64_len(n: nat) -> nat {
    (n + 2) / 3 * 4
}

/// Bytes in base64, with the standard alphabet and padding.
pub open spec fn base64_text(bytes: Seq<u8>) -> Seq<char> {
    Seq::new(
        base64_len(bytes.len()),
        |k: int|
            if k * 6 >= bytes.len() * 8 {
                '='
            } else {
                base64_digit(six_bits(bytes, k))
            },
    )
}

/// Whether the base64 text of so many bytes can be held in memory at all.
pub open spec fn fits_base64(n: nat) -> bool {
    base64_len(n) <= isize::MAX
}

/// Whether the base64 text of so many bytes can be held in memory at all.
pub fn can_encode(n: usize) -> (yes: bool)
    ensures
        yes == fits_base64(n as nat),
{
    let groups = if n % 3 == 0 {
        n / 3
    } else {
        n / 3 + 1
    };
    assert(groups == (n + 2) / 3);
    groups <= isize::MAX as usize / 4
}

/// Calls `STANDARD.encode` of `base64`: the standard alphabet, with padding.
/// It panics where the length of the text overflows.
#[verifier::external_body]
fn base64_encode(bytes: &Vec<u8>) -> (text: String)
    requires
        fits_base64(bytes@.len()),
    ensures
        text@ == base64_text(bytes@),
{
    STANDARD.encode(bytes)
}

/// What is known of the response to a download before its body is read.
#[derive(Debug)]
pub struct ResponseHead {
    status: u16,
    content_type: Option<String>,
}

/// What a [`ResponseHead`] is.
pub struct ResponseHeadView {
    pub status: u16,
    pub content_type: Option<Seq<char>>,
}

impl View for ResponseHead {
    type V = ResponseHeadView;

    closed spec fn view(&self) -> ResponseHeadView {
        ResponseHeadView {
            status: self.status,
            content_type: optional_text(self.content_type),
        }
    }
}

impl ResponseHead {
    #[verifier::type_invariant]
    spec fn well_formed(self) -> bool {
        100 <= self.status <= 999
    }

    /// A response with this status and this content type, if it has one that
    /// is text. A status that HTTP does not have gives none.
    pub fn new(status: u16, content_type: Option<String>) -> (head: Option<ResponseHead>)
        ensures
            head is Some <==> 100 <= status <= 999,
            head matches Some(h) ==> h@ == (ResponseHeadView {
                status,
                content_type: optional_text(content_type),
            }),
    {
        if 100 <= status && status <= 999 {
            Some(ResponseHead { status, content_type })
        } else {
            None
        }
    }
}

/// What came of asking for a response: its head, or why there was none.
pub open spec fn head_outcome(head: Result<ResponseHead, String>) -> Result<
    ResponseHeadView,
    Seq<char>,
> {
    match head {
        Ok(head) => Ok(head@),
        Err(reason) => Err(reason@),
    }
}

/// What came of reading a body: its bytes, or why there were none.
pub open spec fn body_outcome(body: Result<Vec<u8>, String>) -> Result<Seq<u8>, Seq<char>> {
    match body {
        Ok(bytes) => Ok(bytes@),
        Err(reason) => Err(reason@),
    }
}

/// An error that says what is wrong with an address.
pub open spec fn image_error(start: Seq<char>, url: Seq<char>, end: Seq<char>) -> BridgeErrorView {
    BridgeErrorView::InvalidAnthropicRequest(start + url + end)
}

/// An image is loaded from an address only if it is a URL with the scheme
/// `http` or `https`.
pub open spec fn scheme_verdict(
    url: Seq<char>,
    scheme: Result<Seq<char>, Seq<char>>,
) -> Result<(), BridgeErrorView> {
    match scheme {
        Err(reason) => Err(image_error("invalid image URL '"@, url, "': "@ + reason)),
        Ok(scheme) => if scheme == "http"@ || scheme == "https"@ {
            Ok(())
        } else {
            Err(
                image_error(
                    "unsupported image URL scheme '"@ + scheme + "' for '"@,
                    url,
                    "'"@,
                ),
            )
        },
    }
}

/// The media type that a content type begins with, if it names one.
pub open spec fn content_media_type(content_type: Option<Seq<char>>) -> Option<Seq<char>> {
    match content_type {
        Some(value) => {
            let media_type = trimmed(before(value, ';'));
            if media_type.len() == 0 {
                None
            } else {
                Some(media_type)
            }
        },
        None => None,
    }
}

/// The media type of an image, which the request may name and otherwise the
/// response does: the response must be a success, and the type an image's.
pub open spec fn media_type_verdict(
    url: Seq<char>,
    named: Option<Seq<char>>,
    head: Result<ResponseHeadView, Seq<char>>,
) -> Result<Seq<char>, BridgeErrorView> {
    match head {
        Err(reason) => Err(
            image_error("failed to download image URL '"@, url, "': "@ + reason),
        ),
        Ok(head) => if !(200 <= head.status < 300) {
            Err(image_error("image URL '"@, url, "' returned HTTP "@ + status_line(head.status)))
        } else {
            let media_type = match named {
                Some(media_type) => Some(media_type),
                None => content_media_type(head.content_type),
            };
            match media_type {
                None => Err(
                    image_error(
                        "image URL '"@,
                        url,
                        "' did not provide a media type; set source.media_type explicitly"@,
                    ),
                ),
                Some(media_type) => if "image/"@.is_prefix_of(media_type) {
                    Ok(media_type)
                } else {
                    Err(
                        image_error(
                            "image URL '"@,
                            url,
                            "' resolved to non-image media type '"@ + media_type + "'"@,
                        ),
                    )
                },
            }
        },
    }
}

/// The base64 text of a body.
pub open spec fn body_verdict(url: Seq<char>, body: Result<Seq<u8>, Seq<char>>) -> Result<
    Seq<char>,
    BridgeErrorView,
> {
    match body {
        Err(reason) => Err(
            image_error("failed to read image bytes from '"@, url, "': "@ + reason),
        ),
        Ok(bytes) => Ok(base64_text(bytes)),
    }
}

/// A text, an address and another text as one error.
fn invalid_image(start: &str, url: &str, end: &str) -> (error: BridgeError)
    ensures
        error@ == image_error(start@, url@, end@),
{
    let mut text = start.to_owned();
    text.append(url);
    text.append(end);
    BridgeError::InvalidAnthropicRequest(text)
}

/// Two texts, one behind the other.
fn two(a: &str, b: &str) -> (text: String)
    ensures
        text@ == a@ + b@,
{
    let mut text = a.to_owned();
    text.append(b);
    text
}

/// Whether an image may be loaded from an address, given what parsing it gave.
pub fn judge_scheme(url: &str, scheme: Result<String, String>) -> (verdict: Result<(), BridgeError>)
    ensures
        match scheme_verdict(url@, outcome_text(scheme)) {
            Ok(()) => verdict is Ok,
            Err(error) => verdict matches Err(e) && e@ == error,
        },
{
    match scheme {
        Err(reason) => {
            let end = two("': ", reason.as_str());
            Err(invalid_image("invalid image URL '", url, end.as_str()))
        },
        Ok(scheme) => {
            if scheme == "http".to_owned() || scheme == "https".to_owned() {
                Ok(())
            } else {
                let mut start = two("unsupported image URL scheme '", scheme.as_str());
                start.append("' for '");
                Err(invalid_image(start.as_str(), url, "'"))
            }
        },
    }
}

/// Whether an image may be loaded from an address.
pub fn check_image_url(url: &str) -> (verdict: Result<(), BridgeError>)
    ensures
        match scheme_verdict(url@, parsed_scheme(url@)) {
            Ok(()) => verdict is Ok,
            Err(error) => verdict matches Err(e) && e@ == error,
        },
{
    judge_scheme(url, url_scheme(url))
}

/// The media type that a content type begins with, if it names one.
pub fn media_type_of_content(content_type: Option<String>) -> (media_type: Option<String>)
    ensures
        optional_text(media_type) == content_media_type(optional_text(content_type)),
{
    match content_type {
        Some(value) => {
            let media_type = trim(text_before(value.as_str(), ';').as_str());
            if media_type.as_str().is_empty() {
                None
            } else {
                Some(media_type)
            }
        },
        None => None,
    }
}

/// The error for a response that is no success, given how its status is
/// displayed.
pub fn status_error(url: &str, line: &str) -> (error: BridgeError)
    ensures
        error@ == image_error("image URL '"@, url@, "' returned HTTP "@ + line@),
{
    let end = two("' returned HTTP ", line);
    invalid_image("image URL '", url, end.as_str())
}

/// The media type of an image, given the response to its download.
pub fn judge_head(
    url: &str,
    named: Option<String>,
    head: Result<ResponseHead, String>,
) -> (verdict: Result<String, BridgeError>)
    ensures
        match media_type_verdict(url@, optional_text(named), head_outcome(head)) {
            Ok(media_type) => verdict matches Ok(m) && m@ == media_type,
            Err(error) => verdict matches Err(e) && e@ == error,
        },
{
    let head = match head {
        Err(reason) => {
            let end = two("': ", reason.as_str());
            return Err(invalid_image("failed to download image URL '", url, end.as_str()));
        },
        Ok(head) => head,
    };
    proof {
        use_type_invariant(&head);
    }
    if !(200 <= head.status && head.status < 300) {
        return Err(status_error(url, status_text(head.status).as_str()));
    }
    let media_type = match named {
        Some(media_type) => Some(media_type),
        None => media_type_of_content(head.content_type),
    };
    match media_type {
        None => Err(
            invalid_image(
                "image URL '",
                url,
                "' did not provide a media type; set source.media_type explicitly",
            ),
        ),
        Some(media_type) => {
            if has_prefix(media_type.as_str(), "image/") {
                Ok(media_type)
            } else {
                let mut end = two("' resolved to non-image media type '", media_type.as_str());
                end.append("'");
                Err(invalid_image("image URL '", url, end.as_str()))
            }
        },
    }
}

/// The base64 text of an image, given what reading its body gave.
pub fn judge_body(url: &str, body: Result<Vec<u8>, String>) -> (verdict: Result<
    String,
    BridgeError,
>)
    requires
        body matches Ok(bytes) ==> fits_base64(bytes@.len()),
    ensures
        match body_verdict(url@, body_outcome(body)) {
            Ok(data) => verdict matches Ok(d) && d@ == data,
            Err(error) => verdict matches Err(e) && e@ == error,
        },
{
    match body {
        Err(reason) => {
            let end = two("': ", reason.as_str());
            Err(invalid_image("failed to read image bytes from '", url, end.as_str()))
        },
        Ok(bytes) => Ok(base64_encode(&bytes)),
    }
}

/// Digits of different values differ, and none is the padding.
proof fn lemma_base64_digits_differ(v: int, w: int)
    requires
        0 <= v < 64,
        0 <= w < 64,
    ensures
        base64_digit(v) != '=',
        base64_digit(v) == base64_digit(w) ==> v == w,
{
}

/// The six bits of a digit are a value below sixty-four.
proof fn lemma_six_bits_range(bytes: Seq<u8>, k: int)
    ensures
        0 <= six_bits(bytes, k) < 64,
{
    let i = k / 4 * 3;
    let a = padded_byte(bytes, i);
    let b = padded_byte(bytes, i + 1);
    let c = padded_byte(bytes, i + 2);
    assert(0 <= a < 256 && 0 <= b < 256 && 0 <= c < 256);
}

/// Where a text has a digit, two byte sequences with that text have the same
/// six bits.
proof fn lemma_same_six_bits(a: Seq<u8>, b: Seq<u8>, k: int)
    requires
        base64_text(a) == base64_text(b),
        0 <= k < base64_len(a.len()),
    ensures
        k * 6 >= a.len() * 8 <==> k * 6 >= b.len() * 8,
        k * 6 < a.len() * 8 ==> six_bits(a, k) == six_bits(b, k),
{
    lemma_six_bits_range(a, k);
    lemma_six_bits_range(b, k);
    lemma_base64_digits_differ(six_bits(a, k), six_bits(b, k));
    lemma_base64_digits_differ(six_bits(b, k), six_bits(a, k));
    assert(base64_text(a).len() == base64_len(a.len()));
    assert(base64_text(b).len() == base64_len(b.len()));
    assert(base64_text(a)[k] == (if k * 6 >= a.len() * 8 {
        '='
    } else {
        base64_digit(six_bits(a, k))
    }));
    assert(base64_text(b)[k] == (if k * 6 >= b.len() * 8 {
        '='
    } else {
        base64_digit(six_bits(b, k))
    }));
}

/// No two images have the same base64 text: what was downloaded can be had
/// back from it.
pub proof fn base64_loses_nothing(a: Seq<u8>, b: Seq<u8>)
    requires
        base64_text(a) == base64_text(b),
    ensures
        a == b,
{
    assert(base64_text(a).len() == base64_len(a.len()));
    assert(base64_text(b).len() == base64_len(b.len()));
    let n = base64_len(a.len()) as int;
    if n > 0 {
        lemma_same_six_bits(a, b, n - 1);
        lemma_same_six_bits(a, b, n - 2);
        let groups = n / 4;
        assert(n == groups * 4);
        assert((a.len() + 2) / 3 == groups && (b.len() + 2) / 3 == groups);
    }
    assert(a.len() == b.len());
    assert forall|i: int| 0 <= i < a.len() implies a[i] == b[i] by {
        let k = i / 3 * 4;
        lemma_same_six_bits(a, b, k);
        lemma_same_six_bits(a, b, k + 1);
        if i % 3 == 0 {
            assert(a[i] as int / 4 == b[i] as int / 4);
            assert(a[i] as int % 4 == b[i] as int % 4);
        } else if i % 3 == 1 {
            lemma_same_six_bits(a, b, k + 2);
            assert(a[i] as int / 16 == b[i] as int / 16);
            assert(a[i] as int % 16 == b[i] as int % 16);
        } else {
            lemma_same_six_bits(a, b, k + 2);
            lemma_same_six_bits(a, b, k + 3);
            assert(a[i] as int / 64 == b[i] as int / 64);
            assert(a[i] as int % 64 == b[i] as int % 64);
        }
    }
    assert(a =~= b);
}

/// Whether a content type names a media type: it stands in the content type
/// before the first semicolon, or before its end, with white space alone around
/// it there and none at its own ends.
pub open spec fn is_media_type_of(content_type: Seq<char>, media_type: Seq<char>) -> bool {
    exists|end: int| names_media_type_before(content_type, media_type, end)
}

/// Whether a content type names a media type before this place, which is its
/// first semicolon or its end.
pub open spec fn names_media_type_before(
    content_type: Seq<char>,
    media_type: Seq<char>,
    end: int,
) -> bool {
    &&& 0 <= end <= content_type.len()
    &&& forall|i: int| 0 <= i < end ==> #[trigger] content_type[i] != ';'
    &&& end < content_type.len() ==> content_type[end] == ';'
    &&& exists|from: int, to: int| is_trimmed_at(content_type.take(end), media_type, from, to)
}

/// The media type of a response is the one that its content type names. There
/// is none exactly if there is no content type, or if that has nothing but
/// white space before its first semicolon.
pub proof fn content_type_names_media_type(content_type: Seq<char>)
    ensures
        content_media_type(None) is None,
        match content_media_type(Some(content_type)) {
            Some(media_type) => media_type.len() > 0 && is_media_type_of(content_type, media_type),
            None => is_media_type_of(content_type, Seq::empty()),
        },
{
    let head = before(content_type, ';');
    let end = head.len() as int;
    before_ends_at_stop(content_type, ';');
    assert(head =~= content_type.subrange(0, end));
    assert(head =~= content_type.take(end));
    trimming_takes_white_space_alone(head);
    assert forall|i: int| 0 <= i < end implies #[trigger] content_type[i] != ';' by {
        assert(head[i] != ';');
    }
    if trimmed(head).len() == 0 {
        assert(trimmed(head) =~= Seq::empty());
    }
    assert(names_media_type_before(content_type, trimmed(head), end));
}

/// A content type names one media type.
pub proof fn content_type_names_one_media_type(
    content_type: Seq<char>,
    a: Seq<char>,
    b: Seq<char>,
)
    requires
        is_media_type_of(content_type, a),
        is_media_type_of(content_type, b),
    ensures
        a == b,
{
    let end = choose|end: int| names_media_type_before(content_type, a, end);
    let other = choose|end: int| names_media_type_before(content_type, b, end);
    assert(end == other) by {
        if end < other {
            assert(content_type[end] == ';');
        }
        if other < end {
            assert(content_type[other] == ';');
        }
    }
    let s = content_type.take(end);
    let (i, j) = choose|i: int, j: int| is_trimmed_at(s, a, i, j);
    let (k, l) = choose|k: int, l: int| is_trimmed_at(s, b, k, l);
    if a.len() > 0 {
        assert(a[0] == s[i] && a.last() == s[j - 1]);
    }
    if b.len() > 0 {
        assert(b[0] == s[k] && b.last() == s[l - 1]);
    }
    assert(a =~= b);
}

/// A content type without a semicolon and without white space at its ends is
/// the media type itself.
pub proof fn plain_content_type_is_media_type(content_type: Seq<char>)
    requires
        content_type.len() > 0,
        forall|i: int| 0 <= i < content_type.len() ==> #[trigger] content_type[i] != ';',
        !is_white_space(content_type[0]),
        !is_white_space(content_type.last()),
    ensures
        content_media_type(Some(content_type)) == Some(content_type),
{
    before_keeps_text_without_stop(content_type, ';');
    trimming_keeps_trimmed(content_type);
}

/// The digits of base64, by value.
pub open spec fn base64_alphabet() -> Seq<char> {
    "ABCDEFGHIJKLMNOPQRSTUVWXYZabcdefghijklmnopqrstuvwxyz0123456789+/"@
}

/// A digit of base64 is the character of its value in the alphabet.
proof fn lemma_base64_digit(v: int)
    requires
        0 <= v < 64,
    ensures
        base64_alphabet().len() == 64,
        base64_digit(v) == base64_alphabet()[v],
{
    reveal_strlit("ABCDEFGHIJKLMNOPQRSTUVWXYZabcdefghijklmnopqrstuvwxyz0123456789+/");
}

/// The value that a character of base64 text has: the padding stands for zero.
pub open spec fn is_base64_value(c: char, v: int) -> bool {
    &&& 0 <= v < 64
    &&& c == base64_alphabet()[v] || (c == '=' && v == 0)
}

/// Every four characters of base64 text hold three bytes: read as a number to
/// the base 64 they are what the bytes are to the base 256. Behind the last
/// byte stand zeros, and the characters that hold no bit of a byte are padding.
pub proof fn base64_holds_bytes(bytes: Seq<u8>, g: int) -> (values: (int, int, int, int))
    requires
        0 <= g,
        3 * g < bytes.len(),
    ensures
        ({
            let text = base64_text(bytes);
            let a = bytes[3 * g] as int;
            let b = if 3 * g + 1 < bytes.len() { bytes[3 * g + 1] as int } else { 0 };
            let c = if 3 * g + 2 < bytes.len() { bytes[3 * g + 2] as int } else { 0 };
            &&& text.len() % 4 == 0
            &&& 3 * text.len() >= 4 * bytes.len() > 3 * text.len() - 12
            &&& 4 * g + 3 < text.len()
            &&& is_base64_value(text[4 * g], values.0)
            &&& is_base64_value(text[4 * g + 1], values.1)
            &&& is_base64_value(text[4 * g + 2], values.2)
            &&& is_base64_value(text[4 * g + 3], values.3)
            &&& values.0 * 262144 + values.1 * 4096 + values.2 * 64 + values.3 == a * 65536 + b
                * 256 + c
            &&& text[4 * g] != '=' && text[4 * g + 1] != '='
            &&& text[4 * g + 2] == '=' <==> 3 * g + 1 >= bytes.len()
            &&& text[4 * g + 3] == '=' <==> 3 * g + 2 >= bytes.len()
        }),
{
    let k = 4 * g;
    assert(k / 4 == g && (k + 1) / 4 == g && (k + 2) / 4 == g && (k + 3) / 4 == g);
    assert(k % 4 == 0 && (k + 1) % 4 == 1 && (k + 2) % 4 == 2 && (k + 3) % 4 == 3);
    assert(base64_text(bytes).len() == base64_len(bytes.len()));
    lemma_six_bits_range(bytes, k);
    lemma_six_bits_range(bytes, k + 1);
    lemma_six_bits_range(bytes, k + 2);
    lemma_six_bits_range(bytes, k + 3);
    let v = (
        six_bits(bytes, k),
        six_bits(bytes, k + 1),
        six_bits(bytes, k + 2),
        six_bits(bytes, k + 3),
    );
    lemma_base64_digit(v.0);
    lemma_base64_digit(v.1);
    lemma_base64_digit(v.2);
    lemma_base64_digit(v.3);
    lemma_base64_digits_differ(v.0, 0);
    lemma_base64_digits_differ(v.1, 0);
    lemma_base64_digits_differ(v.2, 0);
    lemma_base64_digits_differ(v.3, 0);
    v
}

/// Bytes can be encoded exactly if their base64 text is not longer than what
/// memory can hold.
pub proof fn bytes_fit_if_their_text_does(bytes: Seq<u8>)
    ensures
        fits_base64(bytes.len()) <==> base64_text(bytes).len() <= isize::MAX,
        bytes.len() == 0 ==> base64_text(bytes).len() == 0,
{
    assert(base64_text(bytes).len() == base64_len(bytes.len()));
}

} // verus!

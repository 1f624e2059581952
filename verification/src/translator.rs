//! Online translation providers: the request that asks a provider for a
//! translation, what its reply means, and the book language codes that a
//! provider understands.

use vstd::prelude::*;
use crate::text::{trim, push_char};
use crate::json::{Json, JsonView, get_item, parse_json};

verus! {

/// A translated text, with the source language that the provider detected
/// when it reports one.
#[derive(Debug)]
pub struct Translation {
    pub text: String,
    pub detected_source: Option<String>,
}

/// The mathematical form of a [`Translation`].
pub struct TranslationView {
    pub text: Seq<char>,
    pub detected_source: Option<Seq<char>>,
}

impl View for Translation {
    type V = TranslationView;

    open spec fn view(&self) -> TranslationView {
        TranslationView {
            text: self.text@,
            detected_source: match self.detected_source {
                Some(s) => Some(s@),
                None => None,
            },
        }
    }
}

/// The characters that end the language part of a language tag (`en-US`, `pt_BR`).
pub open spec fn is_tag_separator(c: char) -> bool {
    c == '-' || c == '_'
}

/// The part of `s` before its first tag separator (`split(..).next()`).
pub open spec fn first_subtag(s: Seq<char>) -> Seq<char>
    decreases s.len(),
{
    if s.len() == 0 || is_tag_separator(s[0]) {
        Seq::empty()
    } else {
        seq![s[0]] + first_subtag(s.drop_first())
    }
}

/// An ASCII letter.
pub open spec fn is_ascii_letter(c: char) -> bool {
    ('a' <= c && c <= 'z') || ('A' <= c && c <= 'Z')
}

/// The ASCII lower case of a character; other characters stay as they are.
pub open spec fn ascii_lower(c: char) -> char {
    if 'A' <= c && c <= 'Z' {
        ((c as u32) + 32) as char
    } else {
        c
    }
}

/// The provider language code of a book's metadata language: the first subtag
/// of the trimmed text, when its UTF-8 form is two bytes that are all ASCII
/// letters, in lower case.
pub open spec fn language_code(language: Seq<char>) -> Option<Seq<char>> {
    let code = first_subtag(crate::text::trimmed(language));
    if vstd::utf8::encode_utf8(code).len() == 2 && (forall|i: int|
        0 <= i < code.len() ==> #[trigger] is_ascii_letter(code[i])) {
        Some(code.map_values(|c: char| ascii_lower(c)))
    } else {
        None
    }
}

proof fn lemma_first_subtag_at(s: Seq<char>, k: int)
    requires
        0 <= k <= s.len(),
        forall|j: int| 0 <= j < k ==> !#[trigger] is_tag_separator(s[j]),
        k == s.len() || is_tag_separator(s[k]),
    ensures
        first_subtag(s) == s.take(k),
    decreases k,
{
    if k == 0 {
        assert(s.take(0) =~= Seq::<char>::empty());
    } else {
        assert forall|j: int| 0 <= j < k - 1 implies !#[trigger] is_tag_separator(
            s.drop_first()[j],
        ) by {
            assert(!is_tag_separator(s[j + 1]));
        }
        lemma_first_subtag_at(s.drop_first(), k - 1);
        assert(seq![s[0]] + s.drop_first().take(k - 1) =~= s.take(k));
    }
}

proof fn lemma_first_subtag_long(s: Seq<char>, k: int)
    requires
        0 <= k <= s.len(),
        forall|j: int| 0 <= j < k ==> !#[trigger] is_tag_separator(s[j]),
    ensures
        first_subtag(s).len() >= k,
        first_subtag(s).take(k) == s.take(k),
    decreases k,
{
    if k > 0 {
        assert forall|j: int| 0 <= j < k - 1 implies !#[trigger] is_tag_separator(
            s.drop_first()[j],
        ) by {
            assert(!is_tag_separator(s[j + 1]));
        }
        lemma_first_subtag_long(s.drop_first(), k - 1);
        assert((seq![s[0]] + first_subtag(s.drop_first())).take(k) =~= seq![s[0]]
            + first_subtag(s.drop_first()).take(k - 1));
        assert(seq![s[0]] + s.drop_first().take(k - 1) =~= s.take(k));
    } else {
        assert(first_subtag(s).take(0) =~= s.take(0));
    }
}

/// The UTF-8 form of a code made of ASCII letters has one byte per letter.
proof fn lemma_letters_bytes(code: Seq<char>)
    requires
        forall|i: int| 0 <= i < code.len() ==> #[trigger] is_ascii_letter(code[i]),
    ensures
        vstd::utf8::encode_utf8(code).len() == code.len(),
{
    assert(vstd::utf8::is_ascii_chars(code)) by {
        assert forall|i: int| 0 <= i < code.len() implies '\0' <= #[trigger] code[i] <= '\u{7f}' by {
            assert(is_ascii_letter(code[i]));
        }
    }
    vstd::utf8::is_ascii_chars_encode_utf8(code);
}

/// Maps a book's metadata language (`English`, `en-US`, `ru`) to a provider
/// language code: two ASCII letters, in lower case.
pub fn normalize_language(language: &str) -> (r: Option<String>)
    ensures
        r matches Some(s) ==> language_code(language@) == Some(s@),
        r is None ==> language_code(language@) is None,
{
    let t = trim(language);
    let n = t.unicode_len();
    let mut k: usize = 0;
    let mut at_separator = false;
    while k < n && k < 3 && !at_separator
        invariant
            n == t@.len(),
            k <= n,
            k <= 3,
            at_separator ==> k < n && is_tag_separator(t@[k as int]),
            forall|j: int| 0 <= j < k ==> !#[trigger] is_tag_separator(t@[j]),
        decreases n - k + (if at_separator { 0int } else { 1int }),
    {
        let c = t.get_char(k);
        if c == '-' || c == '_' {
            at_separator = true;
        } else {
            k = k + 1;
        }
    }
    let ghost code = first_subtag(t@);
    if k == 3 && !at_separator {
        proof {
            lemma_first_subtag_long(t@, 3);
            if forall|i: int| 0 <= i < code.len() ==> #[trigger] is_ascii_letter(code[i]) {
                lemma_letters_bytes(code);
            }
        }
        return None;
    }
    proof {
        lemma_first_subtag_at(t@, k as int);
    }
    if k != 2 {
        proof {
            if forall|i: int| 0 <= i < code.len() ==> #[trigger] is_ascii_letter(code[i]) {
                lemma_letters_bytes(code);
            }
        }
        return None;
    }
    let a = t.get_char(0);
    let b = t.get_char(1);
    if !(('a' <= a && a <= 'z') || ('A' <= a && a <= 'Z')) || !(('a' <= b && b <= 'z') || (
    'A' <= b && b <= 'Z')) {
        proof {
            assert(!is_ascii_letter(code[0]) || !is_ascii_letter(code[1]));
        }
        return None;
    }
    proof {
        assert forall|i: int| 0 <= i < code.len() implies #[trigger] is_ascii_letter(code[i]) by {
            assert(i == 0 || i == 1);
        }
        lemma_letters_bytes(code);
    }
    let mut out = String::new();
    push_char(&mut out, to_ascii_lower(a));
    push_char(&mut out, to_ascii_lower(b));
    assert(out@ =~= code.map_values(|c: char| ascii_lower(c)));
    Some(out)
}

/// The ASCII lower case of `c`.
fn to_ascii_lower(c: char) -> (r: char)
    ensures
        r == ascii_lower(c),
{
    if 'A' <= c && c <= 'Z' {
        ((c as u8) + 32) as char
    } else {
        c
    }
}

/// The most bytes of query text that a request carries, to stay well below
/// the length limits of URLs.
pub const QUERY_LENGTH_LIMIT: usize = 4096;

/// The number of bytes of the UTF-8 form of `s`.
pub open spec fn utf8_len(s: Seq<char>) -> nat {
    vstd::utf8::encode_utf8(s).len()
}

/// The number of bytes of the UTF-8 form of one character.
pub open spec fn char_utf8_len(c: char) -> nat {
    if (c as u32) < 0x80 {
        1
    } else if (c as u32) < 0x800 {
        2
    } else if (c as u32) < 0x10000 {
        3
    } else {
        4
    }
}

/// `s` with characters cut off its end while its UTF-8 form is longer than
/// `limit` bytes.
pub open spec fn cut_to_bytes(s: Seq<char>, limit: nat) -> Seq<char>
    decreases s.len(),
{
    if s.len() == 0 || utf8_len(s) <= limit {
        s
    } else {
        cut_to_bytes(s.drop_last(), limit)
    }
}

/// The query as it is sent: characters are cut off its end while its UTF-8
/// form is longer than [`QUERY_LENGTH_LIMIT`] bytes.
pub open spec fn shortened_query(s: Seq<char>) -> Seq<char> {
    cut_to_bytes(s, QUERY_LENGTH_LIMIT as nat)
}

/// Appending a character appends its UTF-8 form.
pub proof fn lemma_utf8_len_push(s: Seq<char>, c: char)
    ensures
        utf8_len(s.push(c)) == utf8_len(s) + char_utf8_len(c),
    decreases s.len(),
{
    broadcast use vstd::utf8::char_is_scalar;

    assert(vstd::utf8::encode_scalar(c as u32).len() == char_utf8_len(c));
    if s.len() == 0 {
        assert(seq![c].drop_first() =~= Seq::<char>::empty());
        assert(s.push(c) =~= seq![c]);
        assert(vstd::utf8::encode_utf8(Seq::<char>::empty()).len() == 0);
        assert(vstd::utf8::encode_utf8(seq![c]) == vstd::utf8::encode_scalar(c as u32)
            + vstd::utf8::encode_utf8(Seq::<char>::empty()));
    } else {
        lemma_utf8_len_push(s.drop_first(), c);
        assert(s.push(c).drop_first() =~= s.drop_first().push(c));
    }
}

/// A longer prefix never has a shorter UTF-8 form.
pub proof fn lemma_utf8_len_prefix(s: Seq<char>, i: int, j: int)
    requires
        0 <= i <= j <= s.len(),
    ensures
        utf8_len(s.take(i)) <= utf8_len(s.take(j)),
    decreases j - i,
{
    if i < j {
        lemma_utf8_len_prefix(s, i, j - 1);
        lemma_utf8_len_push(s.take(j - 1), s[j - 1]);
        assert(s.take(j - 1).push(s[j - 1]) =~= s.take(j));
    }
}

/// When the first `k` characters fit and one more would not, the text is cut
/// after `k` characters.
proof fn lemma_cut_at(s: Seq<char>, limit: nat, k: int, m: int)
    requires
        0 <= k <= m <= s.len(),
        utf8_len(s.take(k)) <= limit,
        k < s.len() ==> utf8_len(s.take(k + 1)) > limit,
    ensures
        cut_to_bytes(s.take(m), limit) == s.take(k),
    decreases m - k,
{
    if m == k {
    } else {
        lemma_utf8_len_prefix(s, k + 1, m);
        assert(s.take(m).drop_last() =~= s.take(m - 1));
        lemma_cut_at(s, limit, k, m - 1);
    }
}

/// Cuts a text to at most `limit` bytes of UTF-8, at a character boundary.
pub fn cut_text(text: &str, limit: usize) -> (r: &str)
    ensures
        r@ == cut_to_bytes(text@, limit as nat),
{
    broadcast use vstd::string::group_string_axioms;

    let total = text.as_bytes().len();
    assert(total == utf8_len(text@));
    if total <= limit {
        return text;
    }
    let n = text.unicode_len();
    let mut k: usize = 0;
    let mut bytes: usize = 0;
    let mut full = false;
    for c in it: text.chars()
        invariant
            it.seq() == text@,
            n == text@.len(),
            k <= it.index(),
            !full ==> k == it.index(),
            bytes == utf8_len(text@.take(k as int)),
            bytes <= limit,
            full ==> k < n && utf8_len(text@.take(k + 1)) > limit,
    {
        assert(c == text@[it.index() as int]);
        if !full {
            let width: usize = char_width(c);
            proof {
                lemma_utf8_len_push(text@.take(k as int), c);
                assert(text@.take(k as int).push(c) =~= text@.take(k + 1));
            }
            if width <= limit - bytes {
                bytes = bytes + width;
                k = k + 1;
            } else {
                full = true;
            }
        }
    }
    proof {
        assert(text@.take(n as int) =~= text@);
        lemma_cut_at(text@, limit as nat, k as int, n as int);
    }
    text.substring_char(0, k)
}

/// Cuts a query to at most [`QUERY_LENGTH_LIMIT`] bytes, at a character boundary.
pub fn shorten_query(query: &str) -> (r: &str)
    ensures
        r@ == shortened_query(query@),
{
    cut_text(query, QUERY_LENGTH_LIMIT)
}

/// The number of bytes of the UTF-8 form of `c`.
fn char_width(c: char) -> (r: usize)
    ensures
        r == char_utf8_len(c),
{
    let v = c as u32;
    if v < 0x80 {
        1
    } else if v < 0x800 {
        2
    } else if v < 0x10000 {
        3
    } else {
        4
    }
}

/// The bytes that percent-encoding leaves as they are: ASCII letters and digits.
pub open spec fn is_ascii_alphanumeric_byte(b: u8) -> bool {
    (0x30 <= b && b <= 0x39) || (0x41 <= b && b <= 0x5a) || (0x61 <= b && b <= 0x7a)
}

/// An upper case hexadecimal digit.
pub open spec fn hex_digit(n: int) -> char {
    if n < 10 {
        (0x30 + n) as char
    } else {
        (0x41 + n - 10) as char
    }
}

/// The percent-encoding of one byte: the byte itself when it is an ASCII
/// letter or digit, else `%` and its two upper case hexadecimal digits.
pub open spec fn percent_encoded_byte(b: u8) -> Seq<char> {
    if is_ascii_alphanumeric_byte(b) {
        seq![b as char]
    } else {
        seq!['%', hex_digit(b as int / 16), hex_digit(b as int % 16)]
    }
}

/// The percent-encoding of a byte string, byte by byte.
pub open spec fn percent_encoded(bytes: Seq<u8>) -> Seq<char>
    decreases bytes.len(),
{
    if bytes.len() == 0 {
        Seq::empty()
    } else {
        percent_encoded(bytes.drop_last()) + percent_encoded_byte(bytes.last())
    }
}

/// Percent-encodes the UTF-8 form of `text`, leaving only ASCII letters and
/// digits as they are (`percent_encoding::utf8_percent_encode` with the set
/// `NON_ALPHANUMERIC`, rendered by its `Display`). The contract states the
/// documented encoding: every byte that is not an ASCII letter or digit becomes
/// `%` followed by its two upper case hexadecimal digits.
#[verifier::external_body]
fn percent_encode(text: &str) -> (r: String)
    ensures
        r@ == percent_encoded(vstd::utf8::encode_utf8(text@)),
{
    percent_encoding::utf8_percent_encode(text, percent_encoding::NON_ALPHANUMERIC).to_string()
}

/// The translation providers.
#[derive(Clone, Copy, Debug, PartialEq, Eq)]
pub enum TranslationProvider {
    /// The endpoint that Google Translate's browser extension uses: no API
    /// key, a plain GET, a JSON array in reply.
    Google,
}

/// The address that asks Google for a translation of `query` from `source`
/// to `target`.
pub open spec fn google_request(query: Seq<char>, source: Seq<char>, target: Seq<char>) -> Seq<char> {
    "https://translate.googleapis.com/translate_a/single?client=gtx&sl="@ + source + "&tl="@
        + target + "&dt=t&q="@ + percent_encoded(vstd::utf8::encode_utf8(shortened_query(query)))
}

/// The address that asks `provider` for a translation of `query`.
pub open spec fn request_for(
    provider: TranslationProvider,
    query: Seq<char>,
    source: Seq<char>,
    target: Seq<char>,
) -> Seq<char> {
    match provider {
        TranslationProvider::Google => google_request(query, source, target),
    }
}

/// The address of the GET request that asks Google for a translation.
pub fn google_request_url(query: &str, source: &str, target: &str) -> (r: String)
    ensures
        r@ == google_request(query@, source@, target@),
{
    let query = shorten_query(query);
    let mut url = String::new();
    url.append("https://translate.googleapis.com/translate_a/single?client=gtx&sl=");
    url.append(source);
    url.append("&tl=");
    url.append(target);
    url.append("&dt=t&q=");
    url.append(percent_encode(query).as_str());
    url
}

/// The address of the GET request that asks `provider` for a translation of
/// `query` from `source` to `target`.
pub fn request_url(query: &str, source: &str, target: &str, provider: TranslationProvider) -> (r: String)
    ensures
        r@ == request_for(provider, query@, source@, target@),
{
    match provider {
        TranslationProvider::Google => google_request_url(query, source, target),
    }
}

/// The text of one segment of Google's reply: its first item when that is a
/// string, else nothing.
pub open spec fn segment_text(segment: JsonView) -> Seq<char> {
    match crate::json::item(segment, 0) {
        Some(JsonView::Str(s)) => s,
        _ => Seq::empty(),
    }
}

/// The texts of the segments, one after the other.
pub open spec fn joined_segments(segments: Seq<JsonView>) -> Seq<char>
    decreases segments.len(),
{
    if segments.len() == 0 {
        Seq::empty()
    } else {
        joined_segments(segments.drop_last()) + segment_text(segments.last())
    }
}

/// What a Google reply says: the first item of the reply array is the array of
/// translated segments, and the third item, when it is a string, the detected
/// source language. `None` when the first item is not an array.
pub open spec fn google_reply(reply: JsonView) -> Option<TranslationView> {
    match crate::json::item(reply, 0) {
        Some(JsonView::Array(segments)) => Some(
            TranslationView {
                text: joined_segments(segments),
                detected_source: match crate::json::item(reply, 2) {
                    Some(JsonView::Str(s)) => Some(s),
                    _ => None,
                },
            },
        ),
        _ => None,
    }
}

/// The translation that a Google reply carries; `None` when the reply does not
/// have the expected shape.
pub fn google_translation(reply: &Json) -> (r: Option<Translation>)
    ensures
        match google_reply(reply@) {
            Some(t) => r matches Some(x) && x@ == t,
            None => r is None,
        },
{
    let segments = match get_item(reply, 0) {
        Some(Json::Array(segments)) => segments,
        _ => {
            return None;
        },
    };
    let ghost views = match crate::json::item(reply@, 0) {
        Some(JsonView::Array(v)) => v,
        _ => Seq::empty(),
    };
    assert(views.len() == segments@.len());
    let mut text = String::new();
    let mut i: usize = 0;
    while i < segments.len()
        invariant
            i <= segments@.len(),
            views.len() == segments@.len(),
            forall|k: int| 0 <= k < views.len() ==> #[trigger] views[k] == segments@[k]@,
            text@ == joined_segments(views.take(i as int)),
        decreases segments.len() - i,
    {
        match get_item(&segments[i], 0) {
            Some(Json::Str(s)) => {
                text.append(s.as_str());
            },
            _ => {},
        }
        assert(views.take(i + 1).drop_last() =~= views.take(i as int));
        i = i + 1;
    }
    assert(views.take(segments@.len() as int) =~= views);
    let detected_source = match get_item(reply, 2) {
        Some(Json::Str(s)) => Some(s.clone()),
        _ => None,
    };
    Some(Translation { text, detected_source })
}

/// How a request failed to reach the provider or to come back.
#[derive(Clone, Copy, Debug, PartialEq, Eq)]
pub enum NetworkFailure {
    /// A read or write on the connection failed.
    Io,
    /// The request took longer than its time limit.
    Timeout,
    /// No connection could be opened to the host.
    ConnectionFailed,
    /// The host name did not resolve.
    HostNotFound,
    /// Any other failure of the HTTP exchange.
    Other,
}

/// Why a translation failed.
#[derive(Debug)]
pub enum TranslateError {
    /// The request did not complete; `message` says what the HTTP client reported.
    Network { failure: NetworkFailure, message: String },
    /// The reply is not a JSON document; it holds the parser's message.
    InvalidJson(String),
    /// The reply is JSON but not of the expected shape; it holds the reply.
    UnexpectedResponse(String),
}

/// The outcome of reading `reply` from `provider`, in terms of the reply's
/// JSON document.
pub open spec fn reply_outcome(
    provider: TranslationProvider,
    reply: Seq<char>,
    r: Result<Translation, TranslateError>,
) -> bool {
    match provider {
        TranslationProvider::Google => match crate::json::json_document(reply) {
            Err(message) => r matches Err(TranslateError::InvalidJson(m)) && m@ == message,
            Ok(v) => match google_reply(v) {
                Some(t) => r matches Ok(x) && x@ == t,
                None => r matches Err(TranslateError::UnexpectedResponse(b)) && b@ == reply,
            },
        },
    }
}

/// Reads the translation out of a Google reply body.
pub fn translate_google_reply(reply: &str) -> (r: Result<Translation, TranslateError>)
    ensures
        reply_outcome(TranslationProvider::Google, reply@, r),
{
    match parse_json(reply) {
        Err(e) => Err(TranslateError::InvalidJson(e)),
        Ok(value) => match google_translation(&value) {
            Some(t) => Ok(t),
            None => Err(TranslateError::UnexpectedResponse(reply.to_owned())),
        },
    }
}

/// Reads the translation out of the body of `provider`'s reply to the request
/// that [`request_url`] gives.
pub fn translate(reply: &str, provider: TranslationProvider) -> (r: Result<Translation, TranslateError>)
    ensures
        reply_outcome(provider, reply@, r),
{
    match provider {
        TranslationProvider::Google => translate_google_reply(reply),
    }
}

/// The failures worth retrying while the wifi connection is being
/// established: those of the connection itself.
pub open spec fn transient(err: TranslateError) -> bool {
    match err {
        TranslateError::Network { failure, .. } => failure == NetworkFailure::Io || failure
            == NetworkFailure::Timeout || failure == NetworkFailure::ConnectionFailed || failure
            == NetworkFailure::HostNotFound,
        _ => false,
    }
}

/// Whether a failure is worth retrying: network errors are while the wifi
/// connection is being established; anything else is not.
pub fn is_transient(err: &TranslateError) -> (r: bool)
    ensures
        r == transient(*err),
{
    match err {
        TranslateError::Network { failure, .. } => match failure {
            NetworkFailure::Io | NetworkFailure::Timeout | NetworkFailure::ConnectionFailed
            | NetworkFailure::HostNotFound => true,
            NetworkFailure::Other => false,
        },
        _ => false,
    }
}

/// A language code is two lower case ASCII letters, and it maps to itself:
/// normalizing a normalized code changes nothing.
pub proof fn lemma_language_code_is_fixed(language: Seq<char>)
    requires
        language_code(language) is Some,
    ensures
        ({
            let c = language_code(language)->0;
            &&& c.len() == 2
            &&& forall|i: int| 0 <= i < 2 ==> 'a' <= #[trigger] c[i] <= 'z'
            &&& language_code(c) == Some(c)
        }),
{
    let code = first_subtag(crate::text::trimmed(language));
    lemma_letters_bytes(code);
    let c = code.map_values(|x: char| ascii_lower(x));
    assert(code.len() == 2);
    assert(is_ascii_letter(code[0]) && is_ascii_letter(code[1]));
    assert(c[0] == ascii_lower(code[0]) && c[1] == ascii_lower(code[1]));
    assert forall|i: int| 0 <= i < 2 implies 'a' <= #[trigger] c[i] <= 'z' by {
        assert(is_ascii_letter(code[i]));
    }
    assert(!crate::text::is_white_space(c[0]) && !crate::text::is_white_space(c[1]));
    crate::text::lemma_trimmed_at(c, 0, 2);
    assert(c.subrange(0, 2) =~= c);
    assert(!is_tag_separator(c[0]) && !is_tag_separator(c[1]));
    lemma_first_subtag_at(c, 2);
    assert(c.take(2) =~= c);
    assert forall|i: int| 0 <= i < c.len() implies #[trigger] is_ascii_letter(c[i]) by {
        assert('a' <= c[i] <= 'z');
    }
    lemma_letters_bytes(c);
    assert(c.map_values(|x: char| ascii_lower(x)) =~= c);
}

/// Cutting a text to `limit` bytes keeps its longest start whose UTF-8 form
/// fits: a text that fits is kept whole, a longer one is cut at a character
/// boundary, and cutting again changes nothing.
pub proof fn lemma_cut_to_bytes(s: Seq<char>, limit: nat)
    ensures
        ({
            let r = cut_to_bytes(s, limit);
            &&& r.len() <= s.len()
            &&& r == s.take(r.len() as int)
            &&& utf8_len(r) <= limit
            &&& r.len() < s.len() ==> utf8_len(s.take(r.len() as int + 1)) > limit
            &&& utf8_len(s) <= limit ==> r == s
            &&& cut_to_bytes(r, limit) == r
        }),
    decreases s.len(),
{
    if s.len() == 0 || utf8_len(s) <= limit {
        assert(s.take(s.len() as int) =~= s);
    } else {
        let t = s.drop_last();
        lemma_cut_to_bytes(t, limit);
        let r = cut_to_bytes(t, limit);
        assert(s.take(r.len() as int) =~= t.take(r.len() as int));
        if r.len() < t.len() {
            assert(s.take(r.len() as int + 1) =~= t.take(r.len() as int + 1));
        } else {
            assert(s.take(r.len() as int + 1) =~= s);
        }
    }
}

/// The query that a request carries is the longest start of the query whose
/// UTF-8 form fits [`QUERY_LENGTH_LIMIT`] bytes: a query that fits is sent
/// whole, a longer one is cut at a character boundary, and cutting again
/// changes nothing.
pub proof fn lemma_shortened_query(s: Seq<char>)
    ensures
        ({
            let r = shortened_query(s);
            &&& r.len() <= s.len()
            &&& r == s.take(r.len() as int)
            &&& utf8_len(r) <= QUERY_LENGTH_LIMIT
            &&& r.len() < s.len() ==> utf8_len(s.take(r.len() as int + 1)) > QUERY_LENGTH_LIMIT
            &&& utf8_len(s) <= QUERY_LENGTH_LIMIT ==> r == s
            &&& shortened_query(r) == r
        }),
{
    lemma_cut_to_bytes(s, QUERY_LENGTH_LIMIT as nat);
}

/// Percent-encoding writes only ASCII letters, digits and `%`, and at most
/// three characters per byte.
pub proof fn lemma_percent_encoded_alphabet(bytes: Seq<u8>)
    ensures
        percent_encoded(bytes).len() <= 3 * bytes.len(),
        forall|i: int|
            0 <= i < percent_encoded(bytes).len() ==> {
                let c = #[trigger] percent_encoded(bytes)[i];
                ||| ('0' <= c && c <= '9')
                ||| ('A' <= c && c <= 'Z')
                ||| ('a' <= c && c <= 'z')
                ||| c == '%'
            },
    decreases bytes.len(),
{
    if bytes.len() > 0 {
        lemma_percent_encoded_alphabet(bytes.drop_last());
        let p = percent_encoded(bytes.drop_last());
        let b = bytes.last();
        let e = percent_encoded(bytes);
        let hi = b as int / 16;
        let lo = b as int % 16;
        assert(0 <= hi < 16 && 0 <= lo < 16);
        assert forall|i: int| 0 <= i < e.len() implies {
            let c = #[trigger] e[i];
            ||| ('0' <= c && c <= '9')
            ||| ('A' <= c && c <= 'Z')
            ||| ('a' <= c && c <= 'z')
            ||| c == '%'
        } by {
            if i >= p.len() {
                assert(e[i] == percent_encoded_byte(b)[i - p.len()]);
            } else {
                assert(e[i] == p[i]);
            }
        }
    }
}

/// The query part of a request to Google is at most three times
/// [`QUERY_LENGTH_LIMIT`] characters long.
pub proof fn lemma_google_request_query_bound(query: Seq<char>)
    ensures
        percent_encoded(vstd::utf8::encode_utf8(shortened_query(query))).len() <= 3
            * QUERY_LENGTH_LIMIT,
{
    lemma_shortened_query(query);
    lemma_percent_encoded_alphabet(vstd::utf8::encode_utf8(shortened_query(query)));
}

/// The value of an upper case hexadecimal digit.
pub open spec fn hex_value(c: char) -> int {
    if '0' <= c && c <= '9' {
        (c as int) - 0x30
    } else {
        (c as int) - 0x41 + 10
    }
}

/// Reads a percent-encoded text back as bytes: `%` and two hexadecimal digits
/// give one byte, any other character its code.
pub open spec fn percent_decoded(s: Seq<char>) -> Seq<u8>
    decreases s.len(),
{
    if s.len() == 0 {
        Seq::empty()
    } else if s[0] == '%' && s.len() >= 3 {
        seq![(hex_value(s[1]) * 16 + hex_value(s[2])) as u8] + percent_decoded(s.skip(3))
    } else {
        seq![s[0] as u8] + percent_decoded(s.drop_first())
    }
}

/// Encoding two byte strings one after the other encodes their concatenation.
pub proof fn lemma_percent_encoded_concat(a: Seq<u8>, b: Seq<u8>)
    ensures
        percent_encoded(a + b) == percent_encoded(a) + percent_encoded(b),
    decreases b.len(),
{
    if b.len() == 0 {
        assert(a + b =~= a);
        assert(percent_encoded(a) + percent_encoded(b) =~= percent_encoded(a));
    } else {
        lemma_percent_encoded_concat(a, b.drop_last());
        assert((a + b).drop_last() =~= a + b.drop_last());
        assert(percent_encoded(a) + percent_encoded(b.drop_last()) + percent_encoded_byte(b.last())
            =~= percent_encoded(a) + (percent_encoded(b.drop_last()) + percent_encoded_byte(
            b.last(),
        )));
    }
}

proof fn lemma_percent_decoded_step(b: u8, rest: Seq<char>)
    ensures
        percent_decoded(percent_encoded_byte(b) + rest) == seq![b] + percent_decoded(rest),
{
    let s = percent_encoded_byte(b) + rest;
    if is_ascii_alphanumeric_byte(b) {
        assert(s[0] == b as char);
        assert(s[0] != '%');
        assert(s.drop_first() =~= rest);
        assert((b as char) as u8 == b);
    } else {
        let hi = b as int / 16;
        let lo = b as int % 16;
        assert(s[0] == '%' && s[1] == hex_digit(hi) && s[2] == hex_digit(lo));
        assert(hex_value(hex_digit(hi)) == hi);
        assert(hex_value(hex_digit(lo)) == lo);
        assert(s.skip(3) =~= rest);
        assert((hi * 16 + lo) as u8 == b);
    }
}

/// Percent-encoding loses nothing: the encoded text decodes back to the bytes.
pub proof fn lemma_percent_decodes(bytes: Seq<u8>)
    ensures
        percent_decoded(percent_encoded(bytes)) == bytes,
    decreases bytes.len(),
{
    if bytes.len() > 0 {
        let rest = bytes.drop_first();
        lemma_percent_decodes(rest);
        lemma_percent_encoded_concat(seq![bytes[0]], rest);
        assert(seq![bytes[0]] + rest =~= bytes);
        assert(seq![bytes[0]].drop_last() =~= Seq::<u8>::empty());
        assert(percent_encoded(Seq::<u8>::empty()) =~= Seq::<char>::empty());
        assert(seq![bytes[0]].last() == bytes[0]);
        assert(percent_encoded(seq![bytes[0]]) =~= percent_encoded_byte(bytes[0]));
        lemma_percent_decoded_step(bytes[0], percent_encoded(rest));
    }
}

/// How many bytes of an unexpected reply its description quotes.
pub const EXCERPT_LIMIT: usize = 128;

/// The reply can be quoted up to [`EXCERPT_LIMIT`] bytes: it is no longer
/// than that, or a character starts at that byte.
pub open spec fn excerpt_cuttable(body: Seq<char>) -> bool {
    utf8_len(body) <= EXCERPT_LIMIT || exists|k: int|
        0 <= k <= body.len() && #[trigger] utf8_len(body.take(k)) == EXCERPT_LIMIT
}

/// The description of a reply of an unexpected shape, quoting its start.
pub open spec fn unexpected_description(body: Seq<char>) -> Seq<char> {
    "Unexpected response: "@ + cut_to_bytes(body, EXCERPT_LIMIT as nat)
}

/// The description that [`describe`] gives of a failure: the HTTP client's
/// report, the parser's message, or the quoted start of the reply.
pub open spec fn described(err: TranslateError, text: Seq<char>) -> bool {
    match err {
        TranslateError::Network { message, .. } => text == message@,
        TranslateError::UnexpectedResponse(body) => text == unexpected_description(body@),
        TranslateError::InvalidJson(message) => text == message@,
    }
}

/// The quoted start of a cuttable reply is exactly its first
/// [`EXCERPT_LIMIT`] bytes, or all of it when it is shorter.
pub proof fn lemma_excerpt_bytes(body: Seq<char>)
    requires
        excerpt_cuttable(body),
    ensures
        cut_to_bytes(body, EXCERPT_LIMIT as nat) == body.take(
            cut_to_bytes(body, EXCERPT_LIMIT as nat).len() as int,
        ),
        utf8_len(cut_to_bytes(body, EXCERPT_LIMIT as nat)) == if utf8_len(body)
            <= EXCERPT_LIMIT {
            utf8_len(body)
        } else {
            EXCERPT_LIMIT as nat
        },
{
    lemma_cut_to_bytes(body, EXCERPT_LIMIT as nat);
    let r = cut_to_bytes(body, EXCERPT_LIMIT as nat);
    if utf8_len(body) > EXCERPT_LIMIT {
        let k = choose|k: int|
            0 <= k <= body.len() && #[trigger] utf8_len(body.take(k)) == EXCERPT_LIMIT;
        if k == body.len() {
            assert(body.take(k) =~= body);
        }
        if r.len() < k {
            lemma_utf8_len_prefix(body, r.len() as int + 1, k);
        } else {
            lemma_utf8_len_prefix(body, k, r.len() as int);
        }
    }
}

/// Describes a failure: the HTTP client's report of a network failure, the
/// parser's report of a reply that is not JSON, or `Unexpected response: `
/// and the first [`EXCERPT_LIMIT`] bytes of a reply of the wrong shape.
pub fn describe(err: &TranslateError) -> (r: String)
    requires
        err matches TranslateError::UnexpectedResponse(body) ==> excerpt_cuttable(body@),
    ensures
        described(*err, r@),
{
    match err {
        TranslateError::Network { message, .. } => message.clone(),
        TranslateError::InvalidJson(message) => message.clone(),
        TranslateError::UnexpectedResponse(body) => {
            let mut text = String::new();
            text.append("Unexpected response: ");
            text.append(cut_text(body.as_str(), EXCERPT_LIMIT));
            text
        },
    }
}

/// The ASCII upper case of a character; other characters stay as they are.
pub open spec fn ascii_upper(c: char) -> char {
    if 'a' <= c && c <= 'z' {
        ((c as u32) - 32) as char
    } else {
        c
    }
}

/// A text in ASCII upper case (`str::to_ascii_uppercase`).
pub open spec fn ascii_uppercase(s: Seq<char>) -> Seq<char> {
    s.map_values(|c: char| ascii_upper(c))
}

proof fn lemma_ascii_upper_char(c: char)
    ensures
        crate::text::is_white_space(ascii_upper(c)) == crate::text::is_white_space(c),
        is_tag_separator(ascii_upper(c)) == is_tag_separator(c),
        is_ascii_letter(ascii_upper(c)) == is_ascii_letter(c),
        ascii_lower(ascii_upper(c)) == ascii_lower(c),
        char_utf8_len(ascii_upper(c)) == char_utf8_len(c),
{
    broadcast use vstd::utf8::char_u32_cast;

    if 'a' <= c && c <= 'z' {
        let u = ((c as u32) - 32) as char;
        assert((c as u32) - 32 == ((c as u32) - 32) as u32);
        assert(u as u32 == (c as u32) - 32);
    }
}

proof fn lemma_uppercase_trim_start(s: Seq<char>)
    ensures
        crate::text::trim_start(ascii_uppercase(s)) == ascii_uppercase(crate::text::trim_start(s)),
    decreases s.len(),
{
    if s.len() > 0 {
        lemma_ascii_upper_char(s[0]);
        assert(ascii_uppercase(s)[0] == ascii_upper(s[0]));
        assert(ascii_uppercase(s).drop_first() =~= ascii_uppercase(s.drop_first()));
        lemma_uppercase_trim_start(s.drop_first());
    } else {
        assert(ascii_uppercase(s) =~= s);
    }
}

proof fn lemma_uppercase_trim_end(s: Seq<char>)
    ensures
        crate::text::trim_end(ascii_uppercase(s)) == ascii_uppercase(crate::text::trim_end(s)),
    decreases s.len(),
{
    if s.len() > 0 {
        lemma_ascii_upper_char(s.last());
        assert(ascii_uppercase(s).last() == ascii_upper(s.last()));
        assert(ascii_uppercase(s).drop_last() =~= ascii_uppercase(s.drop_last()));
        lemma_uppercase_trim_end(s.drop_last());
    } else {
        assert(ascii_uppercase(s) =~= s);
    }
}

proof fn lemma_uppercase_first_subtag(s: Seq<char>)
    ensures
        first_subtag(ascii_uppercase(s)) == ascii_uppercase(first_subtag(s)),
    decreases s.len(),
{
    if s.len() > 0 {
        lemma_ascii_upper_char(s[0]);
        assert(ascii_uppercase(s)[0] == ascii_upper(s[0]));
        assert(ascii_uppercase(s).drop_first() =~= ascii_uppercase(s.drop_first()));
        lemma_uppercase_first_subtag(s.drop_first());
        if !is_tag_separator(s[0]) {
            assert(ascii_uppercase(seq![s[0]] + first_subtag(s.drop_first())) =~= seq![
                ascii_upper(s[0]),
            ] + ascii_uppercase(first_subtag(s.drop_first())));
        } else {
            assert(ascii_uppercase(Seq::<char>::empty()) =~= Seq::<char>::empty());
        }
    } else {
        assert(ascii_uppercase(s) =~= s);
    }
}

proof fn lemma_uppercase_utf8_len(s: Seq<char>)
    ensures
        utf8_len(ascii_uppercase(s)) == utf8_len(s),
    decreases s.len(),
{
    if s.len() > 0 {
        let t = s.drop_last();
        lemma_uppercase_utf8_len(t);
        lemma_ascii_upper_char(s.last());
        lemma_utf8_len_push(t, s.last());
        lemma_utf8_len_push(ascii_uppercase(t), ascii_upper(s.last()));
        assert(t.push(s.last()) =~= s);
        assert(ascii_uppercase(t).push(ascii_upper(s.last())) =~= ascii_uppercase(s));
    } else {
        assert(ascii_uppercase(s) =~= s);
    }
}

/// The language code of a book's language does not depend on the case of its
/// letters, nor on white space around it.
pub proof fn lemma_language_code_ignores_case_and_space(
    language: Seq<char>,
    before: Seq<char>,
    after: Seq<char>,
)
    requires
        crate::text::all_white_space(before),
        crate::text::all_white_space(after),
    ensures
        language_code(ascii_uppercase(language)) == language_code(language),
        language_code(before + language + after) == language_code(language),
{
    crate::text::lemma_trimmed_padding(before, language, after);
    lemma_uppercase_trim_start(language);
    lemma_uppercase_trim_end(crate::text::trim_start(language));
    let t = crate::text::trimmed(language);
    lemma_uppercase_first_subtag(t);
    let code = first_subtag(t);
    let up = ascii_uppercase(code);
    lemma_uppercase_utf8_len(code);
    assert forall|i: int| 0 <= i < code.len() implies #[trigger] is_ascii_letter(up[i])
        == is_ascii_letter(code[i]) by {
        lemma_ascii_upper_char(code[i]);
    }
    if forall|i: int| 0 <= i < code.len() ==> #[trigger] is_ascii_letter(code[i]) {
        assert forall|i: int| 0 <= i < up.len() implies #[trigger] is_ascii_letter(up[i]) by {
            lemma_ascii_upper_char(code[i]);
        }
    }
    if forall|i: int| 0 <= i < up.len() ==> #[trigger] is_ascii_letter(up[i]) {
        assert forall|i: int| 0 <= i < code.len() implies #[trigger] is_ascii_letter(code[i]) by {
            lemma_ascii_upper_char(code[i]);
            assert(is_ascii_letter(up[i]));
        }
    }
    assert(up.map_values(|c: char| ascii_lower(c)) =~= code.map_values(|c: char| ascii_lower(c)))
        by {
        assert forall|i: int| 0 <= i < code.len() implies ascii_lower(up[i]) == ascii_lower(
            code[i],
        ) by {
            lemma_ascii_upper_char(code[i]);
        }
    }
}

/// A segment's text is its first item whenever that item is a string,
/// whatever the segment's other items are, and nothing otherwise.
pub proof fn lemma_segment_text_is_first_string(segment: JsonView, s: Seq<char>)
    ensures
        crate::json::item(segment, 0) == Some(JsonView::Str(s)) ==> segment_text(segment) == s,
        !(crate::json::item(segment, 0) matches Some(JsonView::Str(_))) ==> segment_text(
            segment,
        ).len() == 0,
        (segment matches JsonView::Array(items) && items.len() > 0 && items[0] == JsonView::Str(s))
            ==> segment_text(segment) == s,
{
}

/// The text of two runs of segments is the text of the first run then that
/// of the second; one segment gives its own text.
pub proof fn lemma_joined_segments_concat(a: Seq<JsonView>, b: Seq<JsonView>)
    ensures
        joined_segments(a + b) == joined_segments(a) + joined_segments(b),
    decreases b.len(),
{
    if b.len() == 0 {
        assert(a + b =~= a);
        assert(joined_segments(a) + joined_segments(b) =~= joined_segments(a));
    } else {
        lemma_joined_segments_concat(a, b.drop_last());
        assert((a + b).drop_last() =~= a + b.drop_last());
        assert((a + b).last() == b.last());
        assert(joined_segments(a) + joined_segments(b.drop_last()) + segment_text(b.last())
            =~= joined_segments(a) + (joined_segments(b.drop_last()) + segment_text(b.last())));
    }
}

/// One segment gives its own text; no segment gives nothing.
pub proof fn lemma_joined_segments_one(segment: JsonView)
    ensures
        joined_segments(seq![segment]) == segment_text(segment),
        joined_segments(Seq::<JsonView>::empty()).len() == 0,
{
    assert(seq![segment].drop_last() =~= Seq::<JsonView>::empty());
    assert(seq![segment].last() == segment);
    assert(joined_segments(Seq::<JsonView>::empty()) =~= Seq::<char>::empty());
    assert(Seq::<char>::empty() + segment_text(segment) =~= segment_text(segment));
}

/// What a Google reply says: a translation exactly when its first item is an
/// array of segments; its text is then the segments' texts one after the
/// other, and its detected language the third item when that is a string.
pub proof fn lemma_google_reply_reads_items(reply: JsonView, segments: Seq<JsonView>, d: Seq<char>)
    ensures
        google_reply(reply) is Some <==> crate::json::item(reply, 0) matches Some(
            JsonView::Array(_),
        ),
        crate::json::item(reply, 0) == Some(JsonView::Array(segments)) ==> google_reply(
            reply,
        )->0.text == joined_segments(segments),
        crate::json::item(reply, 0) matches Some(JsonView::Array(_)) ==> (crate::json::item(
            reply,
            2,
        ) == Some(JsonView::Str(d)) ==> google_reply(reply)->0.detected_source == Some(d)),
        crate::json::item(reply, 0) matches Some(JsonView::Array(_)) ==> (!(crate::json::item(
            reply,
            2,
        ) matches Some(JsonView::Str(_))) ==> google_reply(reply)->0.detected_source is None),
{
}

/// Every code of two ASCII letters (`A`-`Z`, `a`-`z`) maps to itself in lower
/// case; two characters of which one is not such a letter map to nothing.
pub proof fn lemma_two_letter_codes(x: char, y: char)
    ensures
        ({
            let letter_x = (0x41 <= x as u32 <= 0x5a) || (0x61 <= x as u32 <= 0x7a);
            let letter_y = (0x41 <= y as u32 <= 0x5a) || (0x61 <= y as u32 <= 0x7a);
            let low_x = if x as u32 <= 0x5a { ((x as u32) + 0x20) as char } else { x };
            let low_y = if y as u32 <= 0x5a { ((y as u32) + 0x20) as char } else { y };
            &&& letter_x && letter_y ==> language_code(seq![x, y]) == Some(seq![low_x, low_y])
            &&& !(letter_x && letter_y) ==> language_code(seq![x, y]) is None
        }),
{
    let s = seq![x, y];
    let wx = crate::text::is_white_space(x);
    let wy = crate::text::is_white_space(y);
    let start: int = if !wx { 0 } else if !wy { 1 } else { 2 };
    let end: int = if !wy { 2 } else if !wx { 1 } else { 0 };
    crate::text::lemma_trimmed_at(s, start, end);
    let t = crate::text::trimmed(s);
    if start < end {
        assert(t == s.subrange(start, end));
    } else {
        assert(t =~= Seq::<char>::empty());
    }
    let k: int = if t.len() >= 1 && is_tag_separator(t[0]) {
        0
    } else if t.len() >= 2 && is_tag_separator(t[1]) {
        1
    } else {
        t.len() as int
    };
    lemma_first_subtag_at(t, k);
    let code = first_subtag(t);
    if forall|i: int| 0 <= i < code.len() ==> #[trigger] is_ascii_letter(code[i]) {
        lemma_letters_bytes(code);
    }
    let letter_x = (0x41 <= x as u32 <= 0x5a) || (0x61 <= x as u32 <= 0x7a);
    let letter_y = (0x41 <= y as u32 <= 0x5a) || (0x61 <= y as u32 <= 0x7a);
    if letter_x && letter_y {
        assert(!wx && !wy && !is_tag_separator(x) && !is_tag_separator(y));
        assert(t =~= s);
        assert(code =~= s);
        assert(is_ascii_letter(x) && is_ascii_letter(y));
        assert forall|i: int| 0 <= i < code.len() implies #[trigger] is_ascii_letter(code[i]) by {
            assert(i == 0 || i == 1);
        }
        lemma_letters_bytes(code);
        assert(code.map_values(|c: char| ascii_lower(c)) =~= seq![ascii_lower(x), ascii_lower(y)]);
    } else {
        if code.len() == 2 {
            assert(code =~= s);
            if !letter_x {
                assert(!is_ascii_letter(code[0]));
            } else {
                assert(!is_ascii_letter(code[1]));
            }
        }
    }
}

/// A failure's description: the HTTP client's report, the parser's message,
/// or `Unexpected response: ` and the start of the reply that fills its first
/// 128 bytes (all of it when it is shorter).
pub proof fn lemma_descriptions(err: TranslateError, text: Seq<char>)
    requires
        described(err, text),
        err matches TranslateError::UnexpectedResponse(body) ==> excerpt_cuttable(body@),
    ensures
        err matches TranslateError::Network { message, .. } ==> text == message@,
        err matches TranslateError::InvalidJson(message) ==> text == message@,
        err matches TranslateError::UnexpectedResponse(body) ==> {
            let start = seq![
                'U', 'n', 'e', 'x', 'p', 'e', 'c', 't', 'e', 'd', ' ', 'r', 'e', 's', 'p', 'o', 'n',
                's', 'e', ':', ' ',
            ];
            let quote = text.skip(start.len() as int);
            &&& text.take(start.len() as int) == start
            &&& quote == body@.take(quote.len() as int)
            &&& utf8_len(quote) == if utf8_len(body@) <= 128 {
                utf8_len(body@)
            } else {
                128
            }
        },
{
    if let TranslateError::UnexpectedResponse(body) = err {
        reveal_strlit("Unexpected response: ");
        let start = seq![
            'U', 'n', 'e', 'x', 'p', 'e', 'c', 't', 'e', 'd', ' ', 'r', 'e', 's', 'p', 'o', 'n', 's',
            'e', ':', ' ',
        ];
        assert("Unexpected response: "@ =~= start);
        lemma_excerpt_bytes(body@);
        assert(text.take(start.len() as int) =~= start);
        assert(text.skip(start.len() as int) =~= cut_to_bytes(body@, EXCERPT_LIMIT as nat));
    }
}

/// The language code is the part before the first `-` or `_`: a start of the
/// text with neither in it, followed by one of them or by the end.
pub proof fn lemma_first_subtag_stops_at_separator(s: Seq<char>)
    ensures
        ({
            let f = first_subtag(s);
            &&& f.len() <= s.len()
            &&& f == s.take(f.len() as int)
            &&& forall|i: int| 0 <= i < f.len() ==> #[trigger] f[i] != '-' && f[i] != '_'
            &&& f.len() < s.len() ==> (s[f.len() as int] == '-' || s[f.len() as int] == '_')
        }),
    decreases s.len(),
{
    if s.len() > 0 && !is_tag_separator(s[0]) {
        lemma_first_subtag_stops_at_separator(s.drop_first());
        let g = first_subtag(s.drop_first());
        let f = first_subtag(s);
        assert(f =~= seq![s[0]] + g);
        assert(s.take(f.len() as int) =~= seq![s[0]] + s.drop_first().take(g.len() as int));
        assert forall|i: int| 0 <= i < f.len() implies #[trigger] f[i] != '-' && f[i] != '_' by {
            if i > 0 {
                assert(f[i] == g[i - 1]);
            }
        }
        if f.len() < s.len() {
            assert(s[f.len() as int] == s.drop_first()[g.len() as int]);
        }
    } else {
        assert(s.take(0) =~= Seq::<char>::empty());
    }
}

/// Percent-encoding keeps an ASCII letter or digit and writes any other byte
/// as `%` and its two hexadecimal digits, high digit first, in upper case.
pub proof fn lemma_percent_encoded_byte(b: u8)
    ensures
        ((0x30 <= b <= 0x39) || (0x41 <= b <= 0x5a) || (0x61 <= b <= 0x7a)) ==> percent_encoded_byte(b)
            == seq![b as char],
        !((0x30 <= b <= 0x39) || (0x41 <= b <= 0x5a) || (0x61 <= b <= 0x7a)) ==> {
            let e = percent_encoded_byte(b);
            let hi = b as int / 16;
            let lo = b as int % 16;
            &&& e.len() == 3
            &&& e[0] == '%'
            &&& e[1] as int == if hi < 10 { 0x30 + hi } else { 0x37 + hi }
            &&& e[2] as int == if lo < 10 { 0x30 + lo } else { 0x37 + lo }
        },
        percent_encoded(seq![b]) == percent_encoded_byte(b),
{
    assert(seq![b].drop_last() =~= Seq::<u8>::empty());
    assert(seq![b].last() == b);
    assert(percent_encoded(Seq::<u8>::empty()) =~= Seq::<char>::empty());
    assert(Seq::<char>::empty() + percent_encoded_byte(b) =~= percent_encoded_byte(b));
}

/// A request to Google carries the source language after `sl=`, the target
/// language after `&tl=`, and, after `&dt=t&q=`, the query, cut to
/// [`QUERY_LENGTH_LIMIT`] bytes and percent-encoded so that it decodes back to
/// the UTF-8 of the cut query.
pub proof fn lemma_google_request_fields(query: Seq<char>, source: Seq<char>, target: Seq<char>)
    ensures
        ({
            let url = google_request(query, source, target);
            let head = "https://translate.googleapis.com/translate_a/single?client=gtx&sl="@;
            let tl = seq!['&', 't', 'l', '='];
            let q = seq!['&', 'd', 't', '=', 't', '&', 'q', '='];
            let a = head.len() as int;
            let b = a + source.len();
            let c = b + tl.len();
            let d = c + target.len();
            let e = d + q.len();
            &&& url.take(a) == head
            &&& url.subrange(a, b) == source
            &&& url.subrange(b, c) == tl
            &&& url.subrange(c, d) == target
            &&& url.subrange(d, e) == q
            &&& percent_decoded(url.skip(e)) == vstd::utf8::encode_utf8(shortened_query(query))
        }),
{
    reveal_strlit("&tl=");
    reveal_strlit("&dt=t&q=");
    let url = google_request(query, source, target);
    let head = "https://translate.googleapis.com/translate_a/single?client=gtx&sl="@;
    let tl = seq!['&', 't', 'l', '='];
    let q = seq!['&', 'd', 't', '=', 't', '&', 'q', '='];
    assert("&tl="@ =~= tl);
    assert("&dt=t&q="@ =~= q);
    let a = head.len() as int;
    let b = a + source.len();
    let c = b + tl.len();
    let d = c + target.len();
    let e = d + q.len();
    let enc = percent_encoded(vstd::utf8::encode_utf8(shortened_query(query)));
    assert(url.take(a) =~= head);
    assert(url.subrange(a, b) =~= source);
    assert(url.subrange(b, c) =~= tl);
    assert(url.subrange(c, d) =~= target);
    assert(url.subrange(d, e) =~= q);
    assert(url.skip(e) =~= enc);
    lemma_percent_decodes(vstd::utf8::encode_utf8(shortened_query(query)));
}

} // verus!

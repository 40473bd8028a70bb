//! Which URLs are album pictures, how a found URL is made absolute, and how
//! a picture URL is rewritten to ask for the full resolution.
//!
//! Parsing, joining and rewriting URLs is the work of the `url` crate, and
//! decoding entities that of `html_escape`. Their results are named here by
//! uninterpreted functions; the rules around them are verified.

use crate::text::{
    append_chars, chars_of, copy_range, ends_with, find_last, has_prefix, has_suffix,
    last_index_of, same_text, starts_with, string_of, trim_chars, trimmed,
};
use vstd::prelude::*;

verus! {

/// What the rules read of a parsed URL: its serialization; the part of it
/// that ends with the path, which holds scheme, user, password, host, port
/// and path; and its host, path, query and fragment.
pub struct UrlParts {
    pub text: Seq<char>,
    pub stem: Seq<char>,
    pub host: Option<Seq<char>>,
    pub path: Seq<char>,
    pub query: Option<Seq<char>>,
    pub fragment: Option<Seq<char>>,
}

/// A parsed URL, as the `url` crate serializes it and its parts.
pub(crate) struct ParsedUrl {
    pub text: String,
    pub stem: String,
    pub host: Option<String>,
    pub path: String,
    pub query: Option<String>,
    pub fragment: Option<String>,
}

impl ParsedUrl {
    pub(crate) open spec fn view(&self) -> UrlParts {
        UrlParts {
            text: self.text@,
            stem: self.stem@,
            host: self.host.deep_view(),
            path: self.path@,
            query: self.query.deep_view(),
            fragment: self.fragment.deep_view(),
        }
    }
}

/// The name/value pairs of a query string.
pub type Pairs = Seq<(Seq<char>, Seq<char>)>;

/// The parts of `input` parsed as an absolute URL, if it is one.
pub uninterp spec fn url_parts(input: Seq<char>) -> Option<UrlParts>;

/// `text` with its HTML character references replaced by what they stand for.
pub uninterp spec fn html_decoded(text: Seq<char>) -> Seq<char>;

/// The pairs that `query` holds in the `application/x-www-form-urlencoded` syntax.
pub uninterp spec fn form_pairs(query: Seq<char>) -> Pairs;

/// The URL `url`, if it parses, after its query was replaced by `pairs`.
pub uninterp spec fn url_with_pairs(url: Seq<char>, pairs: Pairs) -> Option<UrlParts>;

/// The URL `url`, if it parses, after its query was removed.
pub uninterp spec fn url_without_query(url: Seq<char>) -> Option<UrlParts>;

/// The URL that `reference` names when read relative to the URL `base`.
pub uninterp spec fn url_joined(base: Seq<char>, reference: Seq<char>) -> Option<Seq<char>>;

/// The lowercase equivalent of `text`.
pub uninterp spec fn lowercased(text: Seq<char>) -> Seq<char>;

/// `url::Url::parse`, with the parts of the URL it returns copied out: the
/// serialization, its slice up to `Position::AfterPath`, and what
/// `host_str`, `path`, `query` and `fragment` give. Claims that these are
/// the parts named by `url_parts`, and that there are none exactly when the
/// parser reports an error.
#[verifier::external_body]
fn parse_url(input: &str) -> (r: Option<ParsedUrl>)
    ensures
        r.is_some() == url_parts(input@).is_some(),
        r matches Some(u) ==> url_parts(input@) == Some(u@),
{
    match url::Url::parse(input) {
        Ok(u) => Some(ParsedUrl {
            text: String::from(u.as_str()),
            stem: String::from(&u[..url::Position::AfterPath]),
            host: u.host_str().map(String::from),
            path: String::from(u.path()),
            query: u.query().map(String::from),
            fragment: u.fragment().map(String::from),
        }),
        Err(_) => None,
    }
}

/// `html_escape::decode_html_entities`. Claims that the result is the text
/// named by `html_decoded`.
#[verifier::external_body]
pub(crate) fn decode_entities(text: &str) -> (r: String)
    ensures
        r@ == html_decoded(text@),
{
    html_escape::decode_html_entities(text).into_owned()
}

/// `url::form_urlencoded::parse`, which `Url::query_pairs` applies to the
/// query string. Claims that the pairs it yields, in order, are those named
/// by `form_pairs`.
#[verifier::external_body]
fn form_decode(query: &str) -> (r: Vec<(String, String)>)
    ensures
        r.deep_view() == form_pairs(query@),
{
    url::form_urlencoded::parse(query.as_bytes()).into_owned().collect()
}

/// `Url::query_pairs_mut`, with `clear` and `extend_pairs` on what it
/// returns, applied to the parsed `url`, whose parts are then copied out.
/// It asks for a `url` and for pairs whose rewritten form stays within the
/// four gibibytes that a URL of the crate can hold, by the size of the
/// serialization of `url` and of the pairs. Claims that the result
/// is the one named by `url_with_pairs`, none exactly when `url` does not
/// parse, and of a result: that everything up to the end of the path, and
/// the fragment, are those of `url`, and that its query holds exactly
/// `pairs`. Of a result that is an album picture, whose path begins with a
/// segment that is neither empty nor a drive letter, it claims further that
/// its serialization parses to the same parts, and that writing `pairs`
/// into it once more changes nothing.
#[verifier::external_body]
fn with_query_pairs(url: &str, pairs: &Vec<(String, String)>) -> (r: Option<ParsedUrl>)
    requires
        fits(url@, pairs.deep_view()),
    ensures
        r.is_some() == url_parts(url@).is_some(),
        r matches Some(u) ==> url_with_pairs(url@, pairs.deep_view()) == Some(u@),
        r matches Some(u) ==> same_but_query(u@, url_parts(url@).unwrap()),
        r matches Some(u) ==> u@.query matches Some(q) && form_pairs(q) == pairs.deep_view(),
        r matches Some(u) ==> is_image_parts(u@) ==> url_parts(u@.text) == Some(u@),
        r matches Some(u) ==> is_image_parts(u@) ==> url_with_pairs(u@.text, pairs.deep_view())
            == Some(u@),
{
    match url::Url::parse(url) {
        Ok(mut u) => {
            u.query_pairs_mut().clear().extend_pairs(pairs.iter());
            Some(ParsedUrl {
                text: String::from(u.as_str()),
                stem: String::from(&u[..url::Position::AfterPath]),
                host: u.host_str().map(String::from),
                path: String::from(u.path()),
                query: u.query().map(String::from),
                fragment: u.fragment().map(String::from),
            })
        },
        Err(_) => None,
    }
}

/// `Url::set_query` with `None`, applied to the parsed `url`, whose parts
/// are then copied out. Claims that the result is the one named by
/// `url_without_query`, none exactly when `url` does not parse, and of a
/// result: that it has no query, and the host and the fragment of `url`.
/// Of an album picture, which has a host and so no opaque path, it claims
/// further that everything up to the end of the path is that of `url`; and
/// of a result that is an album picture, whose path begins with a segment
/// that is neither empty nor a drive letter, that its serialization parses
/// to the same parts, and that removing its query once more changes
/// nothing.
#[verifier::external_body]
fn without_query(url: &str) -> (r: Option<ParsedUrl>)
    ensures
        r.is_some() == url_parts(url@).is_some(),
        r matches Some(u) ==> url_without_query(url@) == Some(u@),
        r matches Some(u) ==> u@.query is None && u@.host == url_parts(url@).unwrap().host
            && u@.fragment == url_parts(url@).unwrap().fragment,
        r matches Some(u) ==> is_image_parts(url_parts(url@).unwrap()) ==> same_but_query(
            u@,
            url_parts(url@).unwrap(),
        ),
        r matches Some(u) ==> is_image_parts(u@) ==> url_parts(u@.text) == Some(u@),
        r matches Some(u) ==> is_image_parts(u@) ==> url_without_query(u@.text) == Some(u@),
{
    match url::Url::parse(url) {
        Ok(mut u) => {
            u.set_query(None);
            Some(ParsedUrl {
                text: String::from(u.as_str()),
                stem: String::from(&u[..url::Position::AfterPath]),
                host: u.host_str().map(String::from),
                path: String::from(u.path()),
                query: u.query().map(String::from),
                fragment: u.fragment().map(String::from),
            })
        },
        Err(_) => None,
    }
}

/// `Url::join` on the parsed `base`, serialized. Claims that the result is
/// the one named by `url_joined`: none where `base` does not parse or the
/// reference cannot be resolved against it.
#[verifier::external_body]
fn join_url(base: &str, reference: &str) -> (r: Option<String>)
    ensures
        r.deep_view() == url_joined(base@, reference@),
{
    match url::Url::parse(base) {
        Ok(b) => match b.join(reference) {
            Ok(u) => Some(String::from(u)),
            Err(_) => None,
        },
        Err(_) => None,
    }
}

/// `str::to_lowercase`. Claims that the result is the text named by
/// `lowercased`.
#[verifier::external_body]
fn to_lowercase(text: &str) -> (r: String)
    ensures
        r@ == lowercased(text@),
{
    text.to_lowercase()
}

/// The end that the host of every album picture has.
pub open spec fn image_host_suffix() -> Seq<char> {
    "img.kidplan.com"@
}

/// The start that the path of every album picture has.
pub open spec fn album_path_prefix() -> Seq<char> {
    "/albumpicture/"@
}

/// The query parameter that limits the resolution.
pub open spec fn size_key() -> Seq<char> {
    "size"@
}

/// The query parameter that identifies a picture.
pub open spec fn id_key() -> Seq<char> {
    "id"@
}

/// The extension of a picture whose URL shows none.
pub open spec fn default_extension() -> Seq<char> {
    ".jpg"@
}

/// `a` and `b` differ in their query at most: scheme, user, password, host,
/// port, path and fragment are the same.
pub open spec fn same_but_query(a: UrlParts, b: UrlParts) -> bool {
    a.stem == b.stem && a.host == b.host && a.path == b.path && a.fragment == b.fragment
}

/// The parts are those of an album picture: the host ends with the image
/// host and the path starts with the album path.
pub open spec fn is_image_parts(p: UrlParts) -> bool {
    p.host matches Some(h) && ends_with(h, image_host_suffix()) && starts_with(
        p.path,
        album_path_prefix(),
    )
}

/// `url` parses, and its host ends with the image host.
pub open spec fn on_image_host(url: Seq<char>) -> bool {
    url_parts(url) matches Some(p) && p.host matches Some(h) && ends_with(h, image_host_suffix())
}

/// `url` parses, and to the parts of an album picture.
pub open spec fn is_album_image(url: Seq<char>) -> bool {
    url_parts(url) matches Some(p) && is_image_parts(p)
}

/// The pairs of a parsed URL's query; none where it has no query.
pub open spec fn pairs_of(p: UrlParts) -> Pairs {
    match p.query {
        Some(q) => form_pairs(q),
        None => Seq::empty(),
    }
}

/// `pairs` without those named `key`, the others in their order.
pub open spec fn without_key(pairs: Pairs, key: Seq<char>) -> Pairs
    decreases pairs.len(),
{
    if pairs.len() == 0 {
        Seq::empty()
    } else {
        let rest = without_key(pairs.drop_last(), key);
        if pairs.last().0 == key {
            rest
        } else {
            rest.push(pairs.last())
        }
    }
}

/// The value of the first pair named `key`.
pub open spec fn first_value(pairs: Pairs, key: Seq<char>) -> Option<Seq<char>>
    decreases pairs.len(),
{
    if pairs.len() == 0 {
        None
    } else if pairs[0].0 == key {
        Some(pairs[0].1)
    } else {
        first_value(pairs.drop_first(), key)
    }
}

/// The most bytes that a URL of the `url` crate can hold: it counts them
/// in 32 bits.
pub const LONGEST_URL: u64 = 0xFFFF_FFFF;

/// The number of characters in all the names and values of `pairs`.
pub open spec fn pairs_length(pairs: Pairs) -> nat
    decreases pairs.len(),
{
    if pairs.len() == 0 {
        0
    } else {
        pairs_length(pairs.drop_last()) + pairs.last().0.len() + pairs.last().1.len()
    }
}

/// A bound on the bytes of a URL with the serialization `text` once
/// `pairs` are written into it: a character of the serialization takes
/// four bytes at most; a character of a pair takes four, and three times
/// as many once it is percent-encoded; each pair brings a `=` and a `&` at
/// most, and the query a `?`.
pub open spec fn rewritten_size(text: Seq<char>, pairs: Pairs) -> nat {
    4 * text.len() + 12 * pairs_length(pairs) + 2 * pairs.len() + 2
}

/// `url`, where it parses, is with `pairs` written into it a URL that the
/// `url` crate can hold.
pub open spec fn fits(url: Seq<char>, pairs: Pairs) -> bool {
    url_parts(url) matches Some(p) ==> rewritten_size(p.text, pairs) <= LONGEST_URL
}

/// The pairs that the picture `url` keeps: those of its query but for `size`.
pub open spec fn kept_pairs(url: Seq<char>) -> Pairs {
    without_key(pairs_of(url_parts(url).unwrap()), size_key())
}

/// The query of the picture `url` can be written again: nothing is left to
/// write, or the `url` crate can hold what comes of it.
pub open spec fn is_rewritable(url: Seq<char>) -> bool {
    kept_pairs(url).len() == 0 || fits(url, kept_pairs(url))
}

/// `url` is an album picture at full size: no pair of its query is named
/// `size`.
pub open spec fn is_full_size(url: Seq<char>) -> bool {
    is_album_image(url) && first_value(pairs_of(url_parts(url).unwrap()), size_key()) is None
}

/// A picture URL with its query rewritten to `kept`: removed where `kept`
/// is empty.
pub open spec fn rebuilt(url: Seq<char>, kept: Pairs) -> Seq<char> {
    let written = if kept.len() == 0 {
        url_without_query(url)
    } else {
        url_with_pairs(url, kept)
    };
    match written {
        Some(u) => u.text,
        None => url,
    }
}

/// The full-resolution form of `url`: entities decoded and, for an album
/// picture, the query written again without `size`. Only a picture so long
/// that the `url` crate may not hold its rewritten form is left as it is
/// decoded.
pub open spec fn upgraded(url: Seq<char>) -> Seq<char> {
    let decoded = html_decoded(url);
    if is_album_image(decoded) && is_rewritable(decoded) {
        rebuilt(decoded, kept_pairs(decoded))
    } else {
        decoded
    }
}

/// The `id` of an album picture.
pub open spec fn image_id(url: Seq<char>) -> Option<Seq<char>> {
    if is_album_image(url) {
        first_value(pairs_of(url_parts(url).unwrap()), id_key())
    } else {
        None
    }
}

/// The extension that the path of `url` ends in, from its last `.` on and
/// in lowercase; `.jpg` where there is none.
pub open spec fn extension_of(url: Seq<char>) -> Seq<char> {
    match url_parts(url) {
        Some(p) => match last_index_of(p.path, '.') {
            Some(i) => lowercased(p.path.skip(i)),
            None => default_extension(),
        },
        None => default_extension(),
    }
}

/// `url` made absolute: trimmed; given the scheme `https` where it starts
/// with `//`; left alone where it names `http` or `https`; else resolved
/// against `base`, and left alone where that fails.
pub open spec fn normalized(url: Seq<char>, base: Seq<char>) -> Seq<char> {
    let t = trimmed(url);
    if t.len() == 0 {
        Seq::empty()
    } else if starts_with(t, "//"@) {
        "https:"@ + t
    } else if starts_with(t, "http://"@) || starts_with(t, "https://"@) {
        t
    } else {
        match url_joined(base, t) {
            Some(r) => r,
            None => t,
        }
    }
}

/// No URL whose host does not end with the image host is an album picture,
/// whatever its path.
pub proof fn lemma_foreign_host_is_no_image(url: Seq<char>)
    requires
        !on_image_host(url),
    ensures
        !is_album_image(url),
        image_id(url) is None,
{
}

fn image_parts(p: &ParsedUrl) -> (r: bool)
    ensures
        r == is_image_parts(p@),
{
    match &p.host {
        Some(h) => {
            let host = chars_of(h.as_str());
            let path = chars_of(p.path.as_str());
            has_suffix(&host, &chars_of("img.kidplan.com")) && has_prefix(
                &path,
                &chars_of("/albumpicture/"),
            )
        },
        None => false,
    }
}

/// Whether `url` is an album picture. False for every URL whose host does
/// not end with the image host, whatever its path, and for what does not
/// parse.
pub fn is_album_image_url(url: &str) -> (r: bool)
    ensures
        r == is_album_image(url@),
        !on_image_host(url@) ==> !r,
{
    match parse_url(url) {
        Some(p) => image_parts(&p),
        None => false,
    }
}

proof fn lemma_without_key_push(pairs: Pairs, pair: (Seq<char>, Seq<char>), key: Seq<char>)
    ensures
        without_key(pairs.push(pair), key) == if pair.0 == key {
            without_key(pairs, key)
        } else {
            without_key(pairs, key).push(pair)
        },
{
    assert(pairs.push(pair).drop_last() == pairs);
}

/// Taking a key out leaves no pair of that name, so no value for it, and
/// taking it out again changes nothing.
pub proof fn lemma_without_key(pairs: Pairs, key: Seq<char>)
    ensures
        forall|i: int|
            0 <= i < without_key(pairs, key).len() ==> (#[trigger] without_key(pairs, key)[i]).0
                != key,
        first_value(without_key(pairs, key), key) is None,
        without_key(without_key(pairs, key), key) == without_key(pairs, key),
    decreases pairs.len(),
{
    if pairs.len() > 0 {
        let head = without_key(pairs.drop_last(), key);
        lemma_without_key(pairs.drop_last(), key);
        if pairs.last().0 != key {
            lemma_without_key_push(head, pairs.last(), key);
            lemma_first_value_push(head, pairs.last(), key);
        }
    }
}

/// The names and values of the first pairs have no more characters than
/// those of all.
proof fn lemma_pairs_length_grows(pairs: Pairs, k: int)
    requires
        0 <= k <= pairs.len(),
    ensures
        pairs_length(pairs.take(k)) <= pairs_length(pairs),
    decreases pairs.len(),
{
    if k == pairs.len() {
        assert(pairs.take(k) == pairs);
    } else {
        lemma_pairs_length_grows(pairs.drop_last(), k);
        assert(pairs.drop_last().take(k) == pairs.take(k));
    }
}

/// The `url` crate can hold every URL whose serialization has two hundred
/// million characters or fewer with as many pairs, of as many characters,
/// written into it.
pub proof fn lemma_short_picture_fits(url: Seq<char>, pairs: Pairs)
    requires
        url_parts(url) matches Some(p) ==> p.text.len() <= 200_000_000,
        pairs.len() <= 200_000_000,
        pairs_length(pairs) <= 200_000_000,
    ensures
        fits(url, pairs),
{
}

/// Whether the `url` crate can hold the URL `p` with `pairs` written into
/// it.
fn within_limit(p: &ParsedUrl, pairs: &Vec<(String, String)>) -> (r: bool)
    ensures
        r == (rewritten_size(p@.text, pairs.deep_view()) <= LONGEST_URL),
{
    let ghost all = pairs.deep_view();
    let mut size: u128 = 4 * (p.text.as_str().unicode_len() as u128) + 2;
    let mut i: usize = 0;
    assert(all.take(0) =~= Seq::empty());
    proof {
        lemma_pairs_length_grows(all, 0);
    }
    while i < pairs.len()
        invariant
            i <= pairs.len(),
            all == pairs.deep_view(),
            size == rewritten_size(p@.text, all.take(i as int)),
            size <= rewritten_size(p@.text, all),
            size <= LONGEST_URL + 24 * (usize::MAX as u128) + 2,
        decreases pairs.len() - i,
    {
        if size > LONGEST_URL as u128 {
            return false;
        }
        proof {
            assert(all.take(i + 1).drop_last() == all.take(i as int));
            lemma_pairs_length_grows(all, i + 1);
        }
        let name = pairs[i].0.as_str().unicode_len();
        let value = pairs[i].1.as_str().unicode_len();
        size = size + 12 * (name as u128 + value as u128) + 2;
        i += 1;
    }
    assert(all.take(pairs.len() as int) == all);
    size <= LONGEST_URL as u128
}

/// Taking one key out leaves the first value of every other key.
pub proof fn lemma_first_value_without_key(pairs: Pairs, gone: Seq<char>, key: Seq<char>)
    requires
        gone != key,
    ensures
        first_value(without_key(pairs, gone), key) == first_value(pairs, key),
    decreases pairs.len(),
{
    if pairs.len() > 0 {
        let head = pairs.drop_last();
        let last = pairs.last();
        lemma_first_value_without_key(head, gone, key);
        lemma_first_value_push(head, last, key);
        assert(head.push(last) == pairs);
        if last.0 != gone {
            lemma_first_value_push(without_key(head, gone), last, key);
        }
    }
}

/// The first value after one more pair: the one there was, else that of the
/// new pair where it has the key.
proof fn lemma_first_value_push(pairs: Pairs, pair: (Seq<char>, Seq<char>), key: Seq<char>)
    ensures
        first_value(pairs.push(pair), key) == match first_value(pairs, key) {
            Some(v) => Some(v),
            None => if pair.0 == key {
                Some(pair.1)
            } else {
                None
            },
        },
    decreases pairs.len(),
{
    let all = pairs.push(pair);
    if pairs.len() == 0 {
        assert(all.drop_first() =~= pairs);
    } else {
        assert(all[0] == pairs[0]);
        assert(all.drop_first() == pairs.drop_first().push(pair));
        lemma_first_value_push(pairs.drop_first(), pair, key);
    }
}

/// Copies `pairs` without those named `key`.
fn drop_key(pairs: &Vec<(String, String)>, key: &str) -> (kept: Vec<(String, String)>)
    ensures
        kept.deep_view() == without_key(pairs.deep_view(), key@),
{
    let mut kept: Vec<(String, String)> = Vec::new();
    let ghost all = pairs.deep_view();
    let mut i: usize = 0;
    assert(all.take(0) =~= Seq::empty());
    assert(kept.deep_view() =~= Seq::empty());
    while i < pairs.len()
        invariant
            i <= pairs.len(),
            all == pairs.deep_view(),
            kept.deep_view() == without_key(all.take(i as int), key@),
        decreases pairs.len() - i,
    {
        let ghost before = kept.deep_view();
        proof {
            assert(all.take(i + 1) == all.take(i as int).push(all[i as int]));
            lemma_without_key_push(all.take(i as int), all[i as int], key@);
        }
        if !same_text(pairs[i].0.as_str(), key) {
            let name = pairs[i].0.clone();
            let value = pairs[i].1.clone();
            kept.push((name, value));
            assert(kept.deep_view() =~= before.push(all[i as int]));
        }
        i += 1;
    }
    assert(all.take(pairs.len() as int) == all);
    kept
}

/// Finds the value of the first pair named `key`.
fn find_value(pairs: &Vec<(String, String)>, key: &str) -> (r: Option<String>)
    ensures
        r.deep_view() == first_value(pairs.deep_view(), key@),
{
    let ghost all = pairs.deep_view();
    let mut i: usize = 0;
    assert(all.skip(0) == all);
    while i < pairs.len()
        invariant
            i <= pairs.len(),
            all == pairs.deep_view(),
            first_value(all, key@) == first_value(all.skip(i as int), key@),
        decreases pairs.len() - i,
    {
        assert(all.skip(i as int)[0] == all[i as int]);
        if same_text(pairs[i].0.as_str(), key) {
            return Some(pairs[i].1.clone());
        }
        assert(all.skip(i as int).drop_first() == all.skip(i + 1));
        i += 1;
    }
    None
}

/// The pairs of the query of `p`.
fn query_pairs(p: &ParsedUrl) -> (r: Vec<(String, String)>)
    ensures
        r.deep_view() == pairs_of(p@),
{
    match &p.query {
        Some(q) => form_decode(q.as_str()),
        None => {
            let r: Vec<(String, String)> = Vec::new();
            assert(r.deep_view() =~= Seq::empty());
            r
        },
    }
}

/// Decodes the entities of `url` and, where it is an album picture, writes
/// its query again without `size`, or without a query where nothing else
/// was in it. Every other text comes back decoded. So does a picture whose
/// rewritten form may pass the four gibibytes that a URL of the `url` crate
/// can hold, and no other picture.
///
/// The upgraded form of a picture is a picture again, with the same
/// scheme, user, password, host, port, path and fragment, and the same
/// identity; where its query was written again it has the same pairs but
/// for `size`, and no query at all where no pair was left. Upgrading is
/// idempotent wherever decoding the result leaves it as it is: a result
/// that still holds a character reference, such as `&amp;` in a path, would
/// be decoded once more.
pub fn upgrade_image_url(url: &str) -> (r: String)
    ensures
        r@ == upgraded(url@),
        html_decoded(r@) == r@ ==> upgraded(r@) == r@,
        image_id(r@) == image_id(html_decoded(url@)),
        is_album_image(html_decoded(url@)) ==> is_album_image(r@) && same_but_query(
            url_parts(r@).unwrap(),
            url_parts(html_decoded(url@)).unwrap(),
        ),
        is_album_image(html_decoded(url@)) && is_rewritable(html_decoded(url@)) ==> pairs_of(
            url_parts(r@).unwrap(),
        ) == kept_pairs(html_decoded(url@)) && is_full_size(r@),
        is_album_image(html_decoded(url@)) && kept_pairs(html_decoded(url@)).len() == 0
            ==> url_parts(r@).unwrap().query is None,
{
    let decoded = decode_entities(url);
    match parse_url(decoded.as_str()) {
        Some(p) => {
            if image_parts(&p) {
                let pairs = query_pairs(&p);
                let kept = drop_key(&pairs, "size");
                proof {
                    lemma_without_key(pairs.deep_view(), size_key());
                    reveal_strlit("size");
                    reveal_strlit("id");
                    assert(size_key().len() != id_key().len());
                    lemma_first_value_without_key(pairs.deep_view(), size_key(), id_key());
                }
                let written = if kept.len() == 0 {
                    without_query(decoded.as_str())
                } else if within_limit(&p, &kept) {
                    with_query_pairs(decoded.as_str(), &kept)
                } else {
                    return decoded;
                };
                match written {
                    Some(u) => {
                        proof {
                            assert(is_image_parts(u@));
                            assert(pairs_of(u@) == kept.deep_view());
                            assert(kept_pairs(u@.text) == kept.deep_view());
                        }
                        u.text
                    },
                    None => decoded,
                }
            } else {
                decoded
            }
        },
        None => decoded,
    }
}

/// The `id` parameter of an album picture; none for any other URL, and for
/// a picture without that parameter.
pub fn extract_image_id(url: &str) -> (r: Option<String>)
    ensures
        r.deep_view() == image_id(url@),
{
    match parse_url(url) {
        Some(p) => {
            if image_parts(&p) {
                let pairs = query_pairs(&p);
                find_value(&pairs, "id")
            } else {
                None
            }
        },
        None => None,
    }
}

/// The extension of the file that `url` names.
pub fn get_image_extension(url: &str) -> (r: String)
    ensures
        r@ == extension_of(url@),
{
    match parse_url(url) {
        Some(p) => {
            let path = chars_of(p.path.as_str());
            match find_last(&path, '.') {
                Some(i) => {
                    proof {
                        crate::text::lemma_last_index_of(path@, '.');
                    }
                    let tail = copy_range(&path, i, path.len());
                    assert(tail@ == path@.skip(i as int));
                    to_lowercase(string_of(&tail).as_str())
                },
                None => String::from_str(".jpg"),
            }
        },
        None => String::from_str(".jpg"),
    }
}

/// Makes the URL `url`, found on the page `base`, absolute.
pub fn normalize_url(url: &str, base: &str) -> (r: String)
    ensures
        r@ == normalized(url@, base@),
{
    let t = trim_chars(&chars_of(url));
    if t.len() == 0 {
        return String::new();
    }
    if has_prefix(&t, &chars_of("//")) {
        let mut whole = chars_of("https:");
        append_chars(&mut whole, &t);
        return string_of(&whole);
    }
    if has_prefix(&t, &chars_of("http://")) || has_prefix(&t, &chars_of("https://")) {
        return string_of(&t);
    }
    let reference = string_of(&t);
    match join_url(base, reference.as_str()) {
        Some(resolved) => resolved,
        None => reference,
    }
}

} // verus!

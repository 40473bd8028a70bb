//! Finds the album pictures that a page names: in the attributes of its
//! image and source elements, in their `srcset` lists, in the targets of its
//! links, and anywhere in its raw text.
//!
//! The page is parsed by `scraper` and searched by `regex`; what they find is
//! named here by uninterpreted functions. Which of it is a picture, and in
//! what form and order it is reported, is verified.

use crate::order::{lemma_with_text, strictly_ascending, with_text, TextSet};
use crate::text::{chars_of, first_token, first_token_chars, split, split_chars, string_of, texts_of};
use crate::urls::{
    html_decoded, is_album_image, is_album_image_url, is_full_size, is_rewritable, normalize_url,
    normalized, upgrade_image_url, upgraded,
};
use vstd::prelude::*;

verus! {

/// For each element of the document `html` that `selector` matches, in
/// the order in which the parsed document yields them, the value of each of
/// its attributes named in `attributes`, in their order, where it has that
/// attribute. None where `selector` is no selector.
pub uninterp spec fn selected_attributes(
    html: Seq<char>,
    selector: Seq<char>,
    attributes: Seq<Seq<char>>,
) -> Option<Seq<Seq<Option<Seq<char>>>>>;

/// The matches of the regular expression `pattern` in `text`, from left to
/// right and without overlap. None where `pattern` is no regular expression.
pub uninterp spec fn regex_matches(pattern: Seq<char>, text: Seq<char>) -> Option<Seq<Seq<char>>>;

/// `scraper::Html::parse_document`, `Html::select` with the selector that
/// `scraper::Selector::parse` makes of `selector`, and `Element::attr` on
/// each element found, once for each name in `attributes`. Claims that the
/// result is the one named by `selected_attributes`.
#[verifier::external_body]
fn select_attributes(html: &str, selector: &str, attributes: &Vec<&str>) -> (r: Option<
    Vec<Vec<Option<String>>>,
>)
    ensures
        r.deep_view() == selected_attributes(html@, selector@, attributes.deep_view()),
{
    match scraper::Selector::parse(selector) {
        Ok(s) => Some(
            scraper::Html::parse_document(html).select(&s).map(
                |e| attributes.iter().map(|a| e.value().attr(a).map(String::from)).collect(),
            ).collect(),
        ),
        Err(_) => None,
    }
}

/// `regex::Regex::find_iter` with the expression that `Regex::new` makes of
/// `pattern`. Claims that the matched texts, in order, are those named by
/// `regex_matches`.
#[verifier::external_body]
fn find_all(pattern: &str, text: &str) -> (r: Option<Vec<String>>)
    ensures
        r.deep_view() == regex_matches(pattern@, text@),
{
    match regex::Regex::new(pattern) {
        Ok(re) => Some(re.find_iter(text).map(|m| String::from(m.as_str())).collect()),
        Err(_) => None,
    }
}

/// The elements that carry a picture.
pub open spec fn media_selector() -> Seq<char> {
    "img, source"@
}

/// The elements that link somewhere.
pub open spec fn link_selector() -> Seq<char> {
    "a"@
}

/// An absolute `http` or `https` URL in running text: it ends before a
/// quote, white space or `>`.
pub open spec fn absolute_url_pattern() -> Seq<char> {
    "https?://[^\"'\\s>]+"@
}

/// The values that are there, in order.
pub open spec fn present(values: Seq<Option<Seq<char>>>) -> Seq<Seq<char>>
    decreases values.len(),
{
    if values.len() == 0 {
        Seq::empty()
    } else {
        let rest = present(values.drop_last());
        match values.last() {
            Some(v) => rest.push(v),
            None => rest,
        }
    }
}

/// The values that are there, element by element.
pub open spec fn present_in(rows: Seq<Seq<Option<Seq<char>>>>) -> Seq<Seq<char>>
    decreases rows.len(),
{
    if rows.len() == 0 {
        Seq::empty()
    } else {
        present_in(rows.drop_last()) + present(rows.last())
    }
}

/// The values of the attributes named in `attributes` on the elements of
/// `html` that `selector` matches: element by element, and for each element
/// in the order of `attributes`.
pub open spec fn attribute_values(
    html: Seq<char>,
    selector: Seq<char>,
    attributes: Seq<Seq<char>>,
) -> Seq<Seq<char>> {
    match selected_attributes(html, selector, attributes) {
        Some(rows) => present_in(rows),
        None => Seq::empty(),
    }
}

/// The attributes that may hold the source of a picture.
pub open spec fn source_attributes() -> Seq<Seq<char>> {
    seq!["src"@, "data-src"@, "data-original"@, "data-full"@, "data-large"@, "data-url"@]
}

/// An attribute value as a candidate: decoded, then made absolute.
pub open spec fn resolved(value: Seq<char>, base: Seq<char>) -> Seq<char> {
    normalized(html_decoded(value), base)
}

/// Each of `values` as a candidate, in order.
pub open spec fn resolved_all(values: Seq<Seq<char>>, base: Seq<char>) -> Seq<Seq<char>> {
    Seq::new(values.len(), |i: int| resolved(values[i], base))
}

/// Each of `values` decoded, in order.
pub open spec fn decoded_all(values: Seq<Seq<char>>) -> Seq<Seq<char>> {
    Seq::new(values.len(), |i: int| html_decoded(values[i]))
}

/// The URL of each entry of a `srcset` list: its first token, whatever
/// descriptor follows.
pub open spec fn tokens_of(srcset: Seq<char>) -> Seq<Seq<char>> {
    let parts = split(srcset, ',');
    Seq::new(parts.len(), |i: int| first_token(parts[i]))
}

/// The URLs of all the `srcset` lists, in order.
pub open spec fn srcset_tokens(values: Seq<Seq<char>>) -> Seq<Seq<char>>
    decreases values.len(),
{
    if values.len() == 0 {
        Seq::empty()
    } else {
        srcset_tokens(values.drop_last()) + tokens_of(values.last())
    }
}

/// The absolute URLs found in the raw text of the page.
pub open spec fn raw_urls(html: Seq<char>) -> Seq<Seq<char>> {
    match regex_matches(absolute_url_pattern(), html) {
        Some(found) => found,
        None => Seq::empty(),
    }
}

/// Every candidate of the page `html` at `base`: what the four ways of
/// looking find, one after the other.
pub open spec fn page_candidates(html: Seq<char>, base: Seq<char>) -> Seq<Seq<char>> {
    resolved_all(attribute_values(html, media_selector(), source_attributes()), base)
        + resolved_all(
        srcset_tokens(attribute_values(html, media_selector(), seq!["srcset"@])),
        base,
    ) + resolved_all(attribute_values(html, link_selector(), seq!["href"@]), base) + decoded_all(
        raw_urls(html),
    )
}

/// `found` after `candidate` was looked at: a picture is upgraded and put
/// in its place, anything else is passed over.
pub open spec fn offered(found: Seq<Seq<char>>, candidate: Seq<char>) -> Seq<Seq<char>> {
    if is_album_image(candidate) {
        with_text(found, upgraded(candidate))
    } else {
        found
    }
}

/// `found` after each of `candidates` was looked at, in order.
pub open spec fn offered_all(found: Seq<Seq<char>>, candidates: Seq<Seq<char>>) -> Seq<Seq<char>>
    decreases candidates.len(),
{
    if candidates.len() == 0 {
        found
    } else {
        offered(offered_all(found, candidates.drop_last()), candidates.last())
    }
}

/// The pictures of the page `html` at `base`.
pub open spec fn discovered(html: Seq<char>, base: Seq<char>) -> Seq<Seq<char>> {
    offered_all(Seq::empty(), page_candidates(html, base))
}

/// `u` is the upgraded form of a picture among `candidates`.
pub open spec fn comes_from(u: Seq<char>, candidates: Seq<Seq<char>>) -> bool {
    exists|i: int|
        0 <= i < candidates.len() && is_album_image(#[trigger] candidates[i]) && u == upgraded(
            candidates[i],
        )
}

/// The picture `candidate` comes out at full size: as a picture without
/// `size`, wherever it is a picture still when it is decoded once more, and
/// the `url` crate can hold it with its query written again.
pub open spec fn upgrades_to_full_size(candidate: Seq<char>) -> bool {
    is_album_image(html_decoded(candidate)) && is_rewritable(html_decoded(candidate))
        ==> is_full_size(upgraded(candidate))
}

/// `u` is the upgraded form of a picture among `candidates` that comes out
/// at full size.
pub open spec fn comes_at_full_size_from(u: Seq<char>, candidates: Seq<Seq<char>>) -> bool {
    exists|i: int|
        0 <= i < candidates.len() && is_album_image(#[trigger] candidates[i]) && u == upgraded(
            candidates[i],
        ) && upgrades_to_full_size(candidates[i])
}

/// Offering candidates keeps an ascending list ascending, and adds to it
/// the upgraded form of every picture among them, and nothing else.
pub proof fn lemma_offered_all(found: Seq<Seq<char>>, candidates: Seq<Seq<char>>)
    requires
        strictly_ascending(found),
    ensures
        strictly_ascending(offered_all(found, candidates)),
        forall|u: Seq<char>|
            offered_all(found, candidates).contains(u) <==> (found.contains(u) || comes_from(
                u,
                candidates,
            )),
    decreases candidates.len(),
{
    if candidates.len() > 0 {
        let head = candidates.drop_last();
        let last = candidates.last();
        let mid = offered_all(found, head);
        lemma_offered_all(found, head);
        lemma_with_text(mid, upgraded(last));
        assert forall|u: Seq<char>|
            offered_all(found, candidates).contains(u) <==> (found.contains(u) || comes_from(
                u,
                candidates,
            )) by {
            if comes_from(u, head) {
                let i = choose|i: int|
                    0 <= i < head.len() && is_album_image(#[trigger] head[i]) && u == upgraded(
                        head[i],
                    );
                assert(candidates[i] == head[i]);
            }
            if comes_from(u, candidates) {
                let i = choose|i: int|
                    0 <= i < candidates.len() && is_album_image(#[trigger] candidates[i]) && u
                        == upgraded(candidates[i]);
                if i < head.len() {
                    assert(head[i] == candidates[i]);
                }
            }
            if is_album_image(last) && u == upgraded(last) {
                assert(candidates[candidates.len() - 1] == last);
            }
        }
    }
}

proof fn lemma_offered_all_push(found: Seq<Seq<char>>, candidates: Seq<Seq<char>>, c: Seq<char>)
    ensures
        offered_all(found, candidates.push(c)) == offered(offered_all(found, candidates), c),
{
    assert(candidates.push(c).drop_last() == candidates);
}

/// Looks at each candidate in turn.
fn offer_all(found: &mut TextSet, candidates: &Vec<String>)
    ensures
        final(found)@ == offered_all(old(found)@, candidates.deep_view()),
        forall|i: int|
            0 <= i < candidates.len() && is_album_image(#[trigger] candidates.deep_view()[i])
                ==> upgrades_to_full_size(candidates.deep_view()[i]),
{
    let ghost all = candidates.deep_view();
    let mut i: usize = 0;
    assert(all.take(0) =~= Seq::empty());
    while i < candidates.len()
        invariant
            i <= candidates.len(),
            all == candidates.deep_view(),
            found@ == offered_all(old(found)@, all.take(i as int)),
            forall|j: int|
                0 <= j < i && is_album_image(#[trigger] all[j]) ==> upgrades_to_full_size(all[j]),
        decreases candidates.len() - i,
    {
        proof {
            assert(all.take(i + 1) == all.take(i as int).push(all[i as int]));
            lemma_offered_all_push(old(found)@, all.take(i as int), all[i as int]);
        }
        let candidate = candidates[i].as_str();
        if is_album_image_url(candidate) {
            found.insert(upgrade_image_url(candidate));
        }
        i += 1;
    }
    assert(all.take(candidates.len() as int) == all);
}

/// Appends the values of `row` that are there to `out`.
fn present_into(out: &mut Vec<String>, row: &Vec<Option<String>>)
    ensures
        final(out).deep_view() == old(out).deep_view() + present(row.deep_view()),
{
    let ghost start = out.deep_view();
    let ghost all = row.deep_view();
    let mut i: usize = 0;
    assert(all.take(0) =~= Seq::empty());
    assert(start + present(all.take(0)) =~= start);
    while i < row.len()
        invariant
            i <= row.len(),
            all == row.deep_view(),
            out.deep_view() == start + present(all.take(i as int)),
        decreases row.len() - i,
    {
        assert(all.take(i + 1).drop_last() == all.take(i as int));
        let ghost before = out.deep_view();
        match &row[i] {
            Some(v) => {
                out.push(v.clone());
                assert(out.deep_view() =~= before.push(v@));
                assert(start + present(all.take(i as int)).push(v@) =~= before.push(v@));
            },
            None => {},
        }
        i += 1;
    }
    assert(all.take(row.len() as int) == all);
}

/// The values of the attributes named in `attributes` that the elements
/// matching `selector` have.
fn present_values(html: &str, selector: &str, attributes: &Vec<&str>) -> (r: Vec<String>)
    ensures
        r.deep_view() == attribute_values(html@, selector@, attributes.deep_view()),
{
    let mut out: Vec<String> = Vec::new();
    assert(out.deep_view() =~= Seq::empty());
    match select_attributes(html, selector, attributes) {
        Some(rows) => {
            let ghost all = rows.deep_view();
            let mut i: usize = 0;
            assert(all.take(0) =~= Seq::empty());
            while i < rows.len()
                invariant
                    i <= rows.len(),
                    all == rows.deep_view(),
                    out.deep_view() == present_in(all.take(i as int)),
                decreases rows.len() - i,
            {
                assert(all.take(i + 1).drop_last() == all.take(i as int));
                assert(all.take(i + 1).last() == rows[i as int].deep_view());
                present_into(&mut out, &rows[i]);
                i += 1;
            }
            assert(all.take(rows.len() as int) == all);
        },
        None => {},
    }
    out
}

/// Appends each value of `values`, decoded and made absolute, to `out`.
fn resolve_into(out: &mut Vec<String>, values: &Vec<String>, base: &str)
    ensures
        final(out).deep_view() == old(out).deep_view() + resolved_all(values.deep_view(), base@),
{
    let ghost start = out.deep_view();
    let ghost all = values.deep_view();
    let mut i: usize = 0;
    assert(start + resolved_all(all.take(0), base@) =~= start);
    while i < values.len()
        invariant
            i <= values.len(),
            all == values.deep_view(),
            out.deep_view() == start + resolved_all(all.take(i as int), base@),
        decreases values.len() - i,
    {
        let ghost before = out.deep_view();
        let decoded = crate::urls::decode_entities(values[i].as_str());
        let full = normalize_url(decoded.as_str(), base);
        out.push(full);
        assert(out.deep_view() =~= before.push(resolved(all[i as int], base@)));
        assert(start + resolved_all(all.take(i + 1), base@) =~= (start + resolved_all(
            all.take(i as int),
            base@,
        )).push(resolved(all[i as int], base@)));
        i += 1;
    }
    assert(all.take(values.len() as int) == all);
}

/// Appends each value of `values`, decoded, to `out`.
fn decode_into(out: &mut Vec<String>, values: &Vec<String>)
    ensures
        final(out).deep_view() == old(out).deep_view() + decoded_all(values.deep_view()),
{
    let ghost start = out.deep_view();
    let ghost all = values.deep_view();
    let mut i: usize = 0;
    assert(start + decoded_all(all.take(0)) =~= start);
    while i < values.len()
        invariant
            i <= values.len(),
            all == values.deep_view(),
            out.deep_view() == start + decoded_all(all.take(i as int)),
        decreases values.len() - i,
    {
        let ghost before = out.deep_view();
        let decoded = crate::urls::decode_entities(values[i].as_str());
        out.push(decoded);
        assert(out.deep_view() =~= before.push(html_decoded(all[i as int])));
        assert(start + decoded_all(all.take(i + 1)) =~= (start + decoded_all(
            all.take(i as int),
        )).push(html_decoded(all[i as int])));
        i += 1;
    }
    assert(all.take(values.len() as int) == all);
}

/// Appends the first token of every entry of the list `srcset` to `out`.
fn tokens_into(out: &mut Vec<String>, srcset: &str)
    ensures
        final(out).deep_view() == old(out).deep_view() + tokens_of(srcset@),
{
    let ghost start = out.deep_view();
    let parts = split_chars(&chars_of(srcset), ',');
    let ghost all = split(srcset@, ',');
    let mut i: usize = 0;
    assert(start + Seq::new(0, |k: int| first_token(all[k])) =~= start);
    while i < parts.len()
        invariant
            i <= parts.len(),
            all == texts_of(parts@),
            out.deep_view() == start + Seq::new(i as nat, |k: int| first_token(all[k])),
        decreases parts.len() - i,
    {
        let ghost before = out.deep_view();
        let token = string_of(&first_token_chars(&parts[i]));
        out.push(token);
        assert(out.deep_view() =~= before.push(first_token(all[i as int])));
        assert(start + Seq::new((i + 1) as nat, |k: int| first_token(all[k])) =~= (start
            + Seq::new(i as nat, |k: int| first_token(all[k]))).push(first_token(all[i as int])));
        i += 1;
    }
    assert(Seq::new(parts.len() as nat, |k: int| first_token(all[k])) =~= tokens_of(srcset@));
}

/// The URLs of all the `srcset` lists in `values`.
fn srcset_urls(values: &Vec<String>) -> (r: Vec<String>)
    ensures
        r.deep_view() == srcset_tokens(values.deep_view()),
{
    let mut out: Vec<String> = Vec::new();
    let ghost all = values.deep_view();
    let mut i: usize = 0;
    assert(out.deep_view() =~= Seq::empty());
    assert(all.take(0) =~= Seq::empty());
    while i < values.len()
        invariant
            i <= values.len(),
            all == values.deep_view(),
            out.deep_view() == srcset_tokens(all.take(i as int)),
        decreases values.len() - i,
    {
        proof {
            assert(all.take(i + 1).drop_last() == all.take(i as int));
        }
        tokens_into(&mut out, values[i].as_str());
        i += 1;
    }
    assert(all.take(values.len() as int) == all);
    out
}

/// The full-resolution URLs of the album pictures that the page `html_text`
/// at `base_url` names, each once and in ascending order.
///
/// Every candidate of the page is decoded and, unless it was found in the
/// raw text, made absolute; each that is an album picture is upgraded. No
/// way of looking hides what another one finds. What is reported is a
/// picture without `size`, but for a candidate that is no picture any more
/// when it is decoded once more, or is so long that the `url` crate may
/// not hold its rewritten form.
pub fn extract_image_urls(html_text: &str, base_url: &str) -> (r: Vec<String>)
    ensures
        r.deep_view() == discovered(html_text@, base_url@),
        strictly_ascending(r.deep_view()),
        r.deep_view().no_duplicates(),
        forall|u: Seq<char>|
            r.deep_view().contains(u) <==> comes_from(u, page_candidates(html_text@, base_url@)),
        forall|u: Seq<char>|
            r.deep_view().contains(u) ==> comes_at_full_size_from(
                u,
                page_candidates(html_text@, base_url@),
            ),
{
    let mut candidates: Vec<String> = Vec::new();
    assert(candidates.deep_view() =~= Seq::empty());
    let sources = vec!["src", "data-src", "data-original", "data-full", "data-large", "data-url"];
    let srcset = vec!["srcset"];
    let href = vec!["href"];
    proof {
        assert(sources.deep_view() =~= source_attributes());
        assert(srcset.deep_view() =~= seq!["srcset"@]);
        assert(href.deep_view() =~= seq!["href"@]);
    }
    resolve_into(&mut candidates, &present_values(html_text, "img, source", &sources), base_url);
    let srcsets = present_values(html_text, "img, source", &srcset);
    resolve_into(&mut candidates, &srcset_urls(&srcsets), base_url);
    resolve_into(&mut candidates, &present_values(html_text, "a", &href), base_url);
    let raw = match find_all("https?://[^\"'\\s>]+", html_text) {
        Some(found) => found,
        None => {
            let none: Vec<String> = Vec::new();
            assert(none.deep_view() =~= Seq::empty());
            none
        },
    };
    decode_into(&mut candidates, &raw);
    assert(candidates.deep_view() =~= page_candidates(html_text@, base_url@));
    let mut found = TextSet::new();
    offer_all(&mut found, &candidates);
    proof {
        let all = page_candidates(html_text@, base_url@);
        lemma_offered_all(Seq::empty(), all);
        assert(candidates.deep_view() == all);
        assert forall|u: Seq<char>| found@.contains(u) implies comes_at_full_size_from(u, all) by {
            assert(comes_from(u, all));
            let i = choose|i: int|
                0 <= i < all.len() && is_album_image(#[trigger] all[i]) && u == upgraded(all[i]);
            assert(upgrades_to_full_size(all[i]));
        }
    }
    found.into_vec()
}

} // verus!

//! The names under which albums and pictures are kept on disk.

use crate::digits::{decimal, hexadecimal, push_decimal, push_hexadecimal, push_zero_padded, zero_padded};
use crate::text::{
    append_chars, ascii_alphanumeric, chars_of, is_ascii_alphanumeric, lemma_trimmed_of, only, string_of, strip_end, strip_start, trim_char, trim_chars, trimmed,
    trimmed_of, white,
};
use crate::urls::{extension_of, extract_image_id, get_image_extension, image_id};
use vstd::prelude::*;

verus! {

/// What the standard library's default hasher, freshly made, gives for the
/// text `input`.
pub uninterp spec fn default_hash(input: Seq<char>) -> u64;

/// `text` after every match of the regular expression `pattern` in it, from
/// left to right and without overlap, was replaced by `replacement`. None
/// where `pattern` is no regular expression.
pub uninterp spec fn regex_replaced(pattern: Seq<char>, text: Seq<char>, replacement: Seq<char>) -> Option<
    Seq<char>,
>;

/// The expression that matches a run of one or more dashes.
pub open spec fn dash_run_pattern() -> Seq<char> {
    "-+"@
}

/// A single dash.
pub open spec fn dash() -> Seq<char> {
    "-"@
}

/// `text` with every run of dashes cut down to one dash.
pub open spec fn collapsed(text: Seq<char>) -> Seq<char>
    decreases text.len(),
{
    if text.len() == 0 {
        Seq::empty()
    } else {
        let rest = collapsed(text.drop_last());
        if text.last() == '-' && text.len() >= 2 && text[text.len() - 2] == '-' {
            rest
        } else {
            rest.push(text.last())
        }
    }
}

/// `std::hash::BuildHasher::hash_one`, on the builder of the standard
/// library's default hasher: it makes a new hasher, feeds it the text and
/// reads it. Claims that the result is the number named by `default_hash`:
/// every such hasher is made the same, so the result depends on the text
/// alone.
#[verifier::external_body]
fn hash_text(input: &str) -> (r: u64)
    ensures
        r == default_hash(input@),
{
    std::hash::BuildHasher::hash_one(
        &std::hash::BuildHasherDefault::<std::collections::hash_map::DefaultHasher>::default(),
        input,
    )
}

/// `regex::Regex::replace_all` with the expression that `Regex::new` makes
/// of `pattern`. Claims that the result is the one named by
/// `regex_replaced`; and that for the pattern `-+`, which matches each run
/// of dashes as a whole, and the replacement `-`, which holds no reference
/// to a group, it is the text with every such run cut down to one dash.
#[verifier::external_body]
fn replace_all(pattern: &str, text: &str, replacement: &str) -> (r: Option<String>)
    ensures
        r.deep_view() == regex_replaced(pattern@, text@, replacement@),
        pattern@ == dash_run_pattern() && replacement@ == dash() ==> r.deep_view() == Some(
            collapsed(text@),
        ),
{
    match regex::Regex::new(pattern) {
        Ok(re) => Some(re.replace_all(text, replacement).into_owned()),
        Err(_) => None,
    }
}

/// A fast digest of `input`, of 64 bits.
pub fn md5_hash(input: &str) -> (r: u128)
    ensures
        r == default_hash(input@),
{
    hash_text(input) as u128
}

/// `text` with a dash in place of every character that is no ASCII letter
/// or digit.
pub open spec fn dashed(text: Seq<char>) -> Seq<char> {
    Seq::new(
        text.len(),
        |i: int|
            if is_ascii_alphanumeric(text[i]) {
                text[i]
            } else {
                '-'
            },
    )
}

/// The directory name made of `title`: trimmed, everything but ASCII
/// letters and digits turned into dashes, runs of dashes cut down to one,
/// and no dash left at either end.
pub open spec fn slug_of(title: Seq<char>) -> Seq<char> {
    trimmed_of(collapsed(dashed(trimmed(title))), '-')
}

/// A clean slug: ASCII letters and digits joined by single dashes.
pub open spec fn is_clean_slug(s: Seq<char>) -> bool {
    &&& forall|i: int| 0 <= i < s.len() ==> is_ascii_alphanumeric(#[trigger] s[i]) || s[i] == '-'
    &&& forall|i: int| 0 <= i < s.len() - 1 ==> !(#[trigger] s[i] == '-' && s[i + 1] == '-')
    &&& s.len() > 0 ==> s[0] != '-' && s.last() != '-'
}

/// The ASCII letters and digits of `text`, in order, each with the mark of
/// a joint: whether something else stands between it and the letter or
/// digit before it.
pub open spec fn joints(text: Seq<char>) -> Seq<(char, bool)>
    decreases text.len(),
{
    if text.len() == 0 {
        Seq::empty()
    } else {
        let before = joints(text.drop_last());
        if is_ascii_alphanumeric(text.last()) {
            before.push(
                (text.last(), before.len() > 0 && !is_ascii_alphanumeric(text[text.len() - 2])),
            )
        } else {
            before
        }
    }
}

/// Where there is a letter or digit, there is a character.
proof fn lemma_joints_need_text(text: Seq<char>)
    ensures
        joints(text).len() <= text.len(),
    decreases text.len(),
{
    if text.len() > 0 {
        lemma_joints_need_text(text.drop_last());
    }
}

/// Something that is no letter or digit, at the start of a text, changes
/// nothing about its joints.
proof fn lemma_joints_after_first(text: Seq<char>)
    requires
        text.len() > 0,
        !is_ascii_alphanumeric(text[0]),
    ensures
        joints(text) == joints(text.drop_first()),
    decreases text.len(),
{
    if text.len() > 1 {
        let head = text.drop_last();
        let tail = text.drop_first();
        lemma_joints_after_first(head);
        lemma_joints_need_text(head.drop_first());
        assert(tail.drop_last() == head.drop_first());
        if joints(head.drop_first()).len() > 0 {
            assert(tail[tail.len() - 2] == text[text.len() - 2]);
        }
    } else {
        assert(text.drop_first() =~= Seq::<char>::empty());
        assert(text.drop_last() =~= Seq::<char>::empty());
    }
}

/// Stripping what is no letter or digit from the start of a text changes
/// nothing about its joints.
proof fn lemma_joints_strip_start(text: Seq<char>, drop: spec_fn(char) -> bool)
    requires
        forall|c: char| #[trigger] drop(c) ==> !is_ascii_alphanumeric(c),
    ensures
        joints(strip_start(text, drop)) == joints(text),
    decreases text.len(),
{
    if text.len() > 0 && drop(text[0]) {
        lemma_joints_after_first(text);
        lemma_joints_strip_start(text.drop_first(), drop);
    }
}

/// Stripping what is no letter or digit from the end of a text changes
/// nothing about its joints.
proof fn lemma_joints_strip_end(text: Seq<char>, drop: spec_fn(char) -> bool)
    requires
        forall|c: char| #[trigger] drop(c) ==> !is_ascii_alphanumeric(c),
    ensures
        joints(strip_end(text, drop)) == joints(text),
    decreases text.len(),
{
    if text.len() > 0 && drop(text.last()) {
        lemma_joints_strip_end(text.drop_last(), drop);
    }
}

/// Putting dashes for what is no letter or digit changes nothing about the
/// joints of a text.
proof fn lemma_joints_dashed(text: Seq<char>)
    ensures
        joints(dashed(text)) == joints(text),
    decreases text.len(),
{
    if text.len() > 0 {
        lemma_joints_dashed(text.drop_last());
        assert(dashed(text).drop_last() == dashed(text.drop_last()));
    }
}

/// Cutting the runs of dashes changes nothing about the joints of a text.
proof fn lemma_joints_collapsed(text: Seq<char>)
    ensures
        joints(collapsed(text)) == joints(text),
    decreases text.len(),
{
    if text.len() > 0 {
        let head = text.drop_last();
        let rest = collapsed(head);
        lemma_joints_collapsed(head);
        lemma_collapsed(head, |c: char| true);
        lemma_joints_need_text(head);
        if !(text.last() == '-' && text.len() >= 2 && text[text.len() - 2] == '-') {
            let cut = rest.push(text.last());
            assert(cut.drop_last() == rest);
            if joints(head).len() > 0 {
                assert(head.last() == text[text.len() - 2]);
                assert(cut[cut.len() - 2] == rest.last());
            }
        }
    }
}

/// A slug has the letters and digits of its title, in their order, and a
/// joint exactly where the title has one.
pub proof fn lemma_slug_keeps_joints(title: Seq<char>)
    ensures
        joints(slug_of(title)) == joints(title),
{
    let t = trimmed(title);
    assert forall|c: char| #[trigger] white()(c) implies !is_ascii_alphanumeric(c) by {}
    assert forall|c: char| #[trigger] only('-')(c) implies !is_ascii_alphanumeric(c) by {}
    lemma_joints_strip_start(title, white());
    lemma_joints_strip_end(strip_start(title, white()), white());
    lemma_joints_dashed(t);
    let c = collapsed(dashed(t));
    lemma_joints_collapsed(dashed(t));
    lemma_joints_strip_start(c, only('-'));
    lemma_joints_strip_end(strip_start(c, only('-')), only('-'));
}

/// What cutting the runs of dashes leaves: the characters of the text and
/// no two dashes side by side. `keeps` is true of every character of
/// `text`, and so of every character left.
proof fn lemma_collapsed(text: Seq<char>, keeps: spec_fn(char) -> bool)
    requires
        forall|i: int| 0 <= i < text.len() ==> keeps(#[trigger] text[i]),
    ensures
        forall|i: int| 0 <= i < collapsed(text).len() ==> keeps(#[trigger] collapsed(text)[i]),
        forall|i: int|
            0 <= i < collapsed(text).len() - 1 ==> !(#[trigger] collapsed(text)[i] == '-'
                && collapsed(text)[i + 1] == '-'),
        text.len() > 0 ==> collapsed(text).len() > 0 && collapsed(text).last() == text.last(),
        text.len() == 0 ==> collapsed(text).len() == 0,
    decreases text.len(),
{
    if text.len() > 0 {
        let head = text.drop_last();
        assert forall|i: int| 0 <= i < head.len() implies keeps(#[trigger] head[i]) by {
            assert(head[i] == text[i]);
        }
        lemma_collapsed(head, keeps);
        if text.len() >= 2 {
            assert(head.last() == text[text.len() - 2]);
        }
    }
}

/// Every slug is clean: it holds ASCII letters, digits and dashes only, no
/// two dashes side by side, and no dash at either end.
pub proof fn lemma_slug_is_clean(title: Seq<char>)
    ensures
        is_clean_slug(slug_of(title)),
{
    let d = dashed(trimmed(title));
    let keeps = |c: char| is_ascii_alphanumeric(c) || c == '-';
    assert forall|i: int| 0 <= i < d.len() implies keeps(#[trigger] d[i]) by {}
    lemma_collapsed(d, keeps);
    let c = collapsed(d);
    lemma_trimmed_of(c, '-');
    let s = slug_of(title);
    let (from, to) = choose|from: int, to: int|
        0 <= from <= to <= c.len() && #[trigger] c.subrange(from, to) == trimmed_of(c, '-');
    assert forall|i: int| 0 <= i < s.len() implies is_ascii_alphanumeric(#[trigger] s[i]) || s[i]
        == '-' by {
        assert(s[i] == c[from + i]);
        assert(keeps(c[from + i]));
    }
    assert forall|i: int| 0 <= i < s.len() - 1 implies !(#[trigger] s[i] == '-' && s[i + 1]
        == '-') by {
        assert(s[i] == c[from + i]);
        assert(s[i + 1] == c[from + i + 1]);
    }
}

/// The name of the directory that holds the album called `value`: its
/// ASCII letters and digits, in their order, with a single dash wherever
/// anything else stood between two of them.
pub fn slugify(value: &str) -> (r: String)
    ensures
        r@ == slug_of(value@),
        is_clean_slug(r@),
        joints(r@) == joints(value@),
{
    let t = trim_chars(&chars_of(value));
    let mut slug: Vec<char> = Vec::new();
    let mut i: usize = 0;
    while i < t.len()
        invariant
            i <= t.len(),
            slug@ == dashed(t@).take(i as int),
        decreases t.len() - i,
    {
        let c = t[i];
        if ascii_alphanumeric(c) {
            slug.push(c);
        } else {
            slug.push('-');
        }
        assert(slug@ =~= dashed(t@).take(i + 1));
        i += 1;
    }
    assert(dashed(t@).take(t.len() as int) == dashed(t@));
    let text = string_of(&slug);
    proof {
        lemma_slug_is_clean(value@);
        lemma_slug_keeps_joints(value@);
    }
    match replace_all("-+", text.as_str(), "-") {
        Some(cut) => string_of(&trim_char(&chars_of(cut.as_str()), '-')),
        // `-+` is a regular expression, so there is always a result.
        None => text,
    }
}

/// The file name of a picture that has the identity `id`.
pub open spec fn identity_filename(id: Seq<char>, extension: Seq<char>) -> Seq<char> {
    "id-"@ + id + extension
}

/// The first `n` characters of `text`, or all of it where it is shorter.
pub open spec fn at_most(text: Seq<char>, n: nat) -> Seq<char> {
    if text.len() <= n {
        text
    } else {
        text.take(n as int)
    }
}

/// The file name of a picture without identity: the place it has in its
/// album, in four digits or more, and the first ten hexadecimal digits of
/// the digest of its URL.
pub open spec fn fallback_filename(index: nat, digest: nat) -> Seq<char> {
    "image-"@ + zero_padded(decimal(index), 4) + "-"@ + at_most(hexadecimal(digest), 10) + ".jpg"@
}

/// The file name of the picture `url`, found at place `index` of its album,
/// counted from one.
pub open spec fn filename_of(url: Seq<char>, index: nat) -> Seq<char> {
    match image_id(url) {
        Some(id) => identity_filename(id, extension_of(url)),
        None => fallback_filename(index, default_hash(url) as nat),
    }
}

/// Names a picture by the place `index` it has in its album and by the
/// digest of its URL.
pub fn fallback_name(index: usize, digest: u128) -> (r: String)
    ensures
        r@ == fallback_filename(index as nat, digest as nat),
{
    let mut name = chars_of("image-");
    let mut place: Vec<char> = Vec::new();
    push_decimal(&mut place, index as u128);
    assert(place@ =~= decimal(index as nat));
    push_zero_padded(&mut name, &place, 4);
    append_chars(&mut name, &chars_of("-"));
    let mut hex: Vec<char> = Vec::new();
    push_hexadecimal(&mut hex, digest);
    assert(hex@ =~= hexadecimal(digest as nat));
    if hex.len() > 10 {
        hex.truncate(10);
    }
    append_chars(&mut name, &hex);
    append_chars(&mut name, &chars_of(".jpg"));
    string_of(&name)
}

/// Names the picture `url`, found at place `index` of its album: by its
/// identity and extension where it has an identity, else by its place and
/// the digest of the URL.
pub fn image_filename(url: &str, index: usize) -> (r: String)
    ensures
        r@ == filename_of(url@, index as nat),
{
    match extract_image_id(url) {
        Some(id) => {
            let mut name = chars_of("id-");
            append_chars(&mut name, &chars_of(id.as_str()));
            append_chars(&mut name, &chars_of(get_image_extension(url).as_str()));
            string_of(&name)
        },
        None => fallback_name(index, md5_hash(url)),
    }
}

} // verus!

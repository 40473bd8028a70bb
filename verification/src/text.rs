//! Character sequences: the model every contract of this crate speaks in, and
//! the executable helpers that work on `Vec<char>`.

use vstd::prelude::*;

verus! {

/// `String::push`. Claims what its documentation says: the character is
/// appended to the end of the string.
pub assume_specification[ String::push ](s: &mut String, c: char)
    ensures
        final(s)@ == old(s)@.push(c),
;

/// The characters of `s`, in order.
pub fn chars_of(s: &str) -> (v: Vec<char>)
    ensures
        v@ == s@,
{
    let mut v: Vec<char> = Vec::new();
    for c in it: s.chars()
        invariant
            v@ == s@.take(it.index() as int),
            it.seq() == s@,
    {
        v.push(c);
    }
    v
}

/// The string made of the characters of `v`.
pub fn string_of(v: &Vec<char>) -> (s: String)
    ensures
        s@ == v@,
{
    let mut s = String::new();
    let mut i: usize = 0;
    while i < v.len()
        invariant
            i <= v.len(),
            s@ == v@.take(i as int),
        decreases v.len() - i,
    {
        s.push(v[i]);
        i += 1;
    }
    s
}

/// Appends the characters of `tail` to `out`.
pub fn append_chars(out: &mut Vec<char>, tail: &Vec<char>)
    ensures
        final(out)@ == old(out)@ + tail@,
{
    let mut i: usize = 0;
    while i < tail.len()
        invariant
            i <= tail.len(),
            out@ == old(out)@ + tail@.take(i as int),
        decreases tail.len() - i,
    {
        out.push(tail[i]);
        i += 1;
    }
}

/// The characters of `v` from index `from` up to, not including, `to`.
pub fn copy_range(v: &Vec<char>, from: usize, to: usize) -> (r: Vec<char>)
    requires
        from <= to <= v.len(),
    ensures
        r@ == v@.subrange(from as int, to as int),
{
    let mut r: Vec<char> = Vec::new();
    let mut i: usize = from;
    while i < to
        invariant
            from <= i <= to <= v.len(),
            r@ == v@.subrange(from as int, i as int),
        decreases to - i,
    {
        r.push(v[i]);
        i += 1;
    }
    r
}

/// `a` and `b` hold the same characters.
pub fn same_chars(a: &Vec<char>, b: &Vec<char>) -> (r: bool)
    ensures
        r == (a@ == b@),
{
    if a.len() != b.len() {
        return false;
    }
    let mut i: usize = 0;
    while i < a.len()
        invariant
            i <= a.len(),
            a.len() == b.len(),
            a@.take(i as int) == b@.take(i as int),
        decreases a.len() - i,
    {
        if a[i] != b[i] {
            return false;
        }
        assert(a@.take(i + 1) == a@.take(i as int).push(a@[i as int]));
        assert(b@.take(i + 1) == b@.take(i as int).push(b@[i as int]));
        i += 1;
    }
    assert(a@.take(a.len() as int) == a@);
    assert(b@.take(b.len() as int) == b@);
    true
}

/// `a` and `b` are the same text.
pub fn same_text(a: &str, b: &str) -> (r: bool)
    ensures
        r == (a@ == b@),
{
    same_chars(&chars_of(a), &chars_of(b))
}

/// `s` begins with `prefix`.
pub open spec fn starts_with(s: Seq<char>, prefix: Seq<char>) -> bool {
    prefix.len() <= s.len() && s.subrange(0, prefix.len() as int) == prefix
}

/// `s` ends with `suffix`.
pub open spec fn ends_with(s: Seq<char>, suffix: Seq<char>) -> bool {
    suffix.len() <= s.len() && s.subrange(s.len() - suffix.len(), s.len() as int) == suffix
}

/// Whether `s` begins with `prefix`.
pub fn has_prefix(s: &Vec<char>, prefix: &Vec<char>) -> (r: bool)
    ensures
        r == starts_with(s@, prefix@),
{
    if prefix.len() > s.len() {
        return false;
    }
    let ghost head = s@.subrange(0, prefix.len() as int);
    let mut i: usize = 0;
    while i < prefix.len()
        invariant
            i <= prefix.len() <= s.len(),
            head == s@.subrange(0, prefix.len() as int),
            head.take(i as int) == prefix@.take(i as int),
        decreases prefix.len() - i,
    {
        if s[i] != prefix[i] {
            assert(head[i as int] != prefix@[i as int]);
            return false;
        }
        assert(head.take(i + 1) == head.take(i as int).push(head[i as int]));
        assert(prefix@.take(i + 1) == prefix@.take(i as int).push(prefix@[i as int]));
        i += 1;
    }
    assert(head.take(prefix.len() as int) == head);
    assert(prefix@.take(prefix.len() as int) == prefix@);
    true
}

/// Whether `s` ends with `suffix`.
pub fn has_suffix(s: &Vec<char>, suffix: &Vec<char>) -> (r: bool)
    ensures
        r == ends_with(s@, suffix@),
{
    if suffix.len() > s.len() {
        return false;
    }
    let start: usize = s.len() - suffix.len();
    let ghost tail = s@.subrange(start as int, s.len() as int);
    let mut i: usize = 0;
    while i < suffix.len()
        invariant
            i <= suffix.len() <= s.len(),
            start == s.len() - suffix.len(),
            tail == s@.subrange(start as int, s.len() as int),
            tail.take(i as int) == suffix@.take(i as int),
        decreases suffix.len() - i,
    {
        if s[start + i] != suffix[i] {
            assert(tail[i as int] != suffix@[i as int]);
            return false;
        }
        assert(tail.take(i + 1) == tail.take(i as int).push(tail[i as int]));
        assert(suffix@.take(i + 1) == suffix@.take(i as int).push(suffix@[i as int]));
        i += 1;
    }
    assert(tail.take(suffix.len() as int) == tail);
    assert(suffix@.take(suffix.len() as int) == suffix@);
    true
}

/// The characters with the Unicode property White_Space.
pub open spec fn is_white_space(c: char) -> bool {
    let n = c as u32;
    ||| 0x09 <= n <= 0x0D
    ||| n == 0x20
    ||| n == 0x85
    ||| n == 0xA0
    ||| n == 0x1680
    ||| 0x2000 <= n <= 0x200A
    ||| n == 0x2028
    ||| n == 0x2029
    ||| n == 0x202F
    ||| n == 0x205F
    ||| n == 0x3000
}

/// Whether `c` is white space.
pub fn white_space(c: char) -> (r: bool)
    ensures
        r == is_white_space(c),
{
    let n: u32 = c as u32;
    (0x09 <= n && n <= 0x0D) || n == 0x20 || n == 0x85 || n == 0xA0 || n == 0x1680 || (0x2000 <= n
        && n <= 0x200A) || n == 0x2028 || n == 0x2029 || n == 0x202F || n == 0x205F || n == 0x3000
}

/// The ASCII letters and digits.
pub open spec fn is_ascii_alphanumeric(c: char) -> bool {
    ('0' <= c <= '9') || ('A' <= c <= 'Z') || ('a' <= c <= 'z')
}

/// Whether `c` is an ASCII letter or digit.
pub fn ascii_alphanumeric(c: char) -> (r: bool)
    ensures
        r == is_ascii_alphanumeric(c),
{
    ('0' <= c && c <= '9') || ('A' <= c && c <= 'Z') || ('a' <= c && c <= 'z')
}

/// `s` without the longest run of characters that satisfy `drop` at its start.
pub open spec fn strip_start(s: Seq<char>, drop: spec_fn(char) -> bool) -> Seq<char>
    decreases s.len(),
{
    if s.len() > 0 && drop(s[0]) {
        strip_start(s.drop_first(), drop)
    } else {
        s
    }
}

/// `s` without the longest run of characters that satisfy `drop` at its end.
pub open spec fn strip_end(s: Seq<char>, drop: spec_fn(char) -> bool) -> Seq<char>
    decreases s.len(),
{
    if s.len() > 0 && drop(s.last()) {
        strip_end(s.drop_last(), drop)
    } else {
        s
    }
}

/// The test for white space, as a value.
pub open spec fn white() -> spec_fn(char) -> bool {
    |c: char| is_white_space(c)
}

/// The test for being the character `c`, as a value.
pub open spec fn only(c: char) -> spec_fn(char) -> bool {
    |d: char| d == c
}

/// `s` without the white space at both ends.
pub open spec fn trimmed(s: Seq<char>) -> Seq<char> {
    strip_end(strip_start(s, white()), white())
}

/// `s` without the characters equal to `c` at both ends.
pub open spec fn trimmed_of(s: Seq<char>, c: char) -> Seq<char> {
    strip_end(strip_start(s, only(c)), only(c))
}

/// Stripping the start of `s` leaves what begins at `k`, where `k` is the
/// index of the first character that is not dropped.
pub proof fn lemma_strip_start(s: Seq<char>, drop: spec_fn(char) -> bool, k: int)
    requires
        0 <= k <= s.len(),
        forall|j: int| 0 <= j < k ==> drop(#[trigger] s[j]),
        k == s.len() || !drop(s[k]),
    ensures
        strip_start(s, drop) == s.subrange(k, s.len() as int),
    decreases k,
{
    if k == 0 {
        assert(s.subrange(0, s.len() as int) == s);
    } else {
        let rest = s.drop_first();
        assert forall|j: int| 0 <= j < k - 1 implies drop(#[trigger] rest[j]) by {
            assert(rest[j] == s[j + 1]);
        }
        lemma_strip_start(rest, drop, k - 1);
        assert(rest.subrange(k - 1, rest.len() as int) == s.subrange(k, s.len() as int));
    }
}

/// Stripping the end of `s` leaves what ends before `k`, where `k` follows
/// the last character that is not dropped.
pub proof fn lemma_strip_end(s: Seq<char>, drop: spec_fn(char) -> bool, k: int)
    requires
        0 <= k <= s.len(),
        forall|j: int| k <= j < s.len() ==> drop(#[trigger] s[j]),
        k == 0 || !drop(s[k - 1]),
    ensures
        strip_end(s, drop) == s.subrange(0, k),
    decreases s.len() - k,
{
    if k == s.len() {
        assert(s.subrange(0, s.len() as int) == s);
    } else {
        let rest = s.drop_last();
        assert forall|j: int| k <= j < rest.len() implies drop(#[trigger] rest[j]) by {
            assert(rest[j] == s[j]);
        }
        lemma_strip_end(rest, drop, k);
        assert(rest.subrange(0, k) == s.subrange(0, k));
    }
}

/// What trimming leaves is a stretch of the text that neither starts nor
/// ends with a trimmed character.
pub proof fn lemma_trimmed_of(s: Seq<char>, c: char)
    ensures
        exists|from: int, to: int|
            0 <= from <= to <= s.len() && #[trigger] s.subrange(from, to) == trimmed_of(s, c),
        trimmed_of(s, c).len() > 0 ==> trimmed_of(s, c)[0] != c && trimmed_of(s, c).last() != c,
{
    let from = lemma_strip_start_is_tail(s, only(c));
    let t = strip_start(s, only(c));
    let to = lemma_strip_end_is_head(t, only(c));
    assert(t.subrange(0, to) == s.subrange(from, from + to));
    if trimmed_of(s, c).len() > 0 {
        assert(t.len() > 0);
    }
}

proof fn lemma_strip_start_is_tail(s: Seq<char>, drop: spec_fn(char) -> bool) -> (from: int)
    ensures
        0 <= from <= s.len(),
        strip_start(s, drop) == s.subrange(from, s.len() as int),
        from < s.len() ==> !drop(s[from]),
    decreases s.len(),
{
    if s.len() > 0 && drop(s[0]) {
        let k = lemma_strip_start_is_tail(s.drop_first(), drop);
        assert(s.drop_first().subrange(k, s.len() - 1) == s.subrange(k + 1, s.len() as int));
        k + 1
    } else {
        assert(s.subrange(0, s.len() as int) == s);
        0
    }
}

proof fn lemma_strip_end_is_head(s: Seq<char>, drop: spec_fn(char) -> bool) -> (to: int)
    ensures
        0 <= to <= s.len(),
        strip_end(s, drop) == s.subrange(0, to),
        to > 0 ==> !drop(s[to - 1]),
        s.len() > 0 && !drop(s[0]) ==> to > 0,
    decreases s.len(),
{
    if s.len() > 0 && drop(s.last()) {
        let k = lemma_strip_end_is_head(s.drop_last(), drop);
        assert(s.drop_last().subrange(0, k) == s.subrange(0, k));
        k
    } else {
        assert(s.subrange(0, s.len() as int) == s);
        s.len() as int
    }
}

/// Copies `v` without the white space at both ends.
pub fn trim_chars(v: &Vec<char>) -> (r: Vec<char>)
    ensures
        r@ == trimmed(v@),
{
    let mut from: usize = 0;
    while from < v.len() && white_space(v[from])
        invariant
            from <= v.len(),
            forall|j: int| 0 <= j < from ==> is_white_space(#[trigger] v@[j]),
        decreases v.len() - from,
    {
        from += 1;
    }
    let mut to: usize = v.len();
    while to > from && white_space(v[to - 1])
        invariant
            from <= to <= v.len(),
            forall|j: int| to <= j < v.len() ==> is_white_space(#[trigger] v@[j]),
        decreases to,
    {
        to -= 1;
    }
    let r = copy_range(v, from, to);
    proof {
        let ws = white();
        lemma_strip_start(v@, ws, from as int);
        let mid = v@.subrange(from as int, v.len() as int);
        assert forall|j: int| to - from <= j < mid.len() implies ws(#[trigger] mid[j]) by {
            assert(mid[j] == v@[j + from]);
        }
        lemma_strip_end(mid, ws, to - from);
        assert(mid.subrange(0, to - from) == v@.subrange(from as int, to as int));
    }
    r
}

/// Copies `v` without the characters equal to `c` at both ends.
pub fn trim_char(v: &Vec<char>, c: char) -> (r: Vec<char>)
    ensures
        r@ == trimmed_of(v@, c),
{
    let mut from: usize = 0;
    while from < v.len() && v[from] == c
        invariant
            from <= v.len(),
            forall|j: int| 0 <= j < from ==> #[trigger] v@[j] == c,
        decreases v.len() - from,
    {
        from += 1;
    }
    let mut to: usize = v.len();
    while to > from && v[to - 1] == c
        invariant
            from <= to <= v.len(),
            forall|j: int| to <= j < v.len() ==> #[trigger] v@[j] == c,
        decreases to,
    {
        to -= 1;
    }
    let r = copy_range(v, from, to);
    proof {
        let is_c = only(c);
        lemma_strip_start(v@, is_c, from as int);
        let mid = v@.subrange(from as int, v.len() as int);
        assert forall|j: int| to - from <= j < mid.len() implies is_c(#[trigger] mid[j]) by {
            assert(mid[j] == v@[j + from]);
        }
        lemma_strip_end(mid, is_c, to - from);
        assert(mid.subrange(0, to - from) == v@.subrange(from as int, to as int));
    }
    r
}

/// The index of the last `c` in `s`.
pub open spec fn last_index_of(s: Seq<char>, c: char) -> Option<int>
    decreases s.len(),
{
    if s.len() == 0 {
        None
    } else if s.last() == c {
        Some(s.len() - 1)
    } else {
        last_index_of(s.drop_last(), c)
    }
}

/// The last index of `c` is an index of `c`, and no `c` comes after it.
pub proof fn lemma_last_index_of(s: Seq<char>, c: char)
    ensures
        match last_index_of(s, c) {
            Some(i) => 0 <= i < s.len() && s[i] == c && forall|j: int|
                i < j < s.len() ==> s[j] != c,
            None => forall|j: int| 0 <= j < s.len() ==> s[j] != c,
        },
    decreases s.len(),
{
    if s.len() > 0 && s.last() != c {
        lemma_last_index_of(s.drop_last(), c);
        assert forall|j: int| 0 <= j < s.len() - 1 implies s.drop_last()[j] == s[j] by {}
    }
}

/// Finds the last `c` in `v`.
pub fn find_last(v: &Vec<char>, c: char) -> (r: Option<usize>)
    ensures
        match r {
            Some(i) => last_index_of(v@, c) == Some(i as int),
            None => last_index_of(v@, c) is None,
        },
{
    let mut i: usize = v.len();
    assert(v@.take(v.len() as int) == v@);
    while i > 0
        invariant
            i <= v.len(),
            last_index_of(v@, c) == last_index_of(v@.take(i as int), c),
        decreases i,
    {
        if v[i - 1] == c {
            assert(v@.take(i as int).last() == c);
            return Some(i - 1);
        }
        assert(v@.take(i as int).drop_last() == v@.take(i - 1));
        i -= 1;
    }
    None
}

/// The test for anything but white space, as a value.
pub open spec fn non_white() -> spec_fn(char) -> bool {
    |c: char| !is_white_space(c)
}

/// The first run of characters of `s` that holds no white space; empty
/// where `s` holds nothing else.
pub open spec fn first_token(s: Seq<char>) -> Seq<char> {
    let t = strip_start(s, white());
    t.take(t.len() - strip_start(t, non_white()).len())
}

/// Copies the first run of characters of `v` that holds no white space.
pub fn first_token_chars(v: &Vec<char>) -> (r: Vec<char>)
    ensures
        r@ == first_token(v@),
{
    let mut from: usize = 0;
    while from < v.len() && white_space(v[from])
        invariant
            from <= v.len(),
            forall|j: int| 0 <= j < from ==> is_white_space(#[trigger] v@[j]),
        decreases v.len() - from,
    {
        from += 1;
    }
    let mut to: usize = from;
    while to < v.len() && !white_space(v[to])
        invariant
            from <= to <= v.len(),
            forall|j: int| from <= j < to ==> !is_white_space(#[trigger] v@[j]),
        decreases v.len() - to,
    {
        to += 1;
    }
    let r = copy_range(v, from, to);
    proof {
        lemma_strip_start(v@, white(), from as int);
        let t = v@.subrange(from as int, v.len() as int);
        assert forall|j: int| 0 <= j < to - from implies non_white()(#[trigger] t[j]) by {
            assert(t[j] == v@[j + from]);
        }
        lemma_strip_start(t, non_white(), to - from);
        assert(t.take(to - from) == v@.subrange(from as int, to as int));
    }
    r
}

/// The pieces of `s` between the occurrences of `sep`: one more than there
/// are separators, so a single empty piece for the empty text.
pub open spec fn split(s: Seq<char>, sep: char) -> Seq<Seq<char>>
    decreases s.len(),
{
    match last_index_of(s, sep) {
        Some(i) => if 0 <= i < s.len() {
            split(s.take(i), sep).push(s.skip(i + 1))
        } else {
            seq![s]
        },
        None => seq![s],
    }
}

/// How the pieces change when one character is added at the end.
pub proof fn lemma_split_push(s: Seq<char>, sep: char, c: char)
    ensures
        split(s, sep).len() > 0,
        split(s.push(c), sep) == if c == sep {
            split(s, sep).push(Seq::empty())
        } else {
            split(s, sep).drop_last().push(split(s, sep).last().push(c))
        },
{
    let t = s.push(c);
    lemma_last_index_of(s, sep);
    lemma_last_index_of(t, sep);
    assert(t.drop_last() == s);
    if c == sep {
        assert(t.take(s.len() as int) == s);
        assert(t.skip(s.len() as int + 1) == Seq::<char>::empty());
    } else {
        match last_index_of(s, sep) {
            Some(j) => {
                assert(t.take(j) == s.take(j));
                assert(t.skip(j + 1) == s.skip(j + 1).push(c));
                let head = split(s.take(j), sep);
                assert(head.push(s.skip(j + 1)).drop_last() == head);
            },
            None => {
                assert(seq![s].drop_last().push(seq![s].last().push(c)) == seq![t]);
            },
        }
    }
}

/// The texts that the vectors of `v` hold.
pub open spec fn texts_of(v: Seq<Vec<char>>) -> Seq<Seq<char>> {
    Seq::new(v.len(), |i: int| v[i]@)
}

/// Cuts `v` at every `sep`.
pub fn split_chars(v: &Vec<char>, sep: char) -> (r: Vec<Vec<char>>)
    ensures
        texts_of(r@) == split(v@, sep),
{
    let mut done: Vec<Vec<char>> = Vec::new();
    let mut piece: Vec<char> = Vec::new();
    let mut i: usize = 0;
    proof {
        assert(v@.take(0) == Seq::<char>::empty());
        assert(texts_of(done@).push(piece@) =~= seq![Seq::<char>::empty()]);
    }
    while i < v.len()
        invariant
            i <= v.len(),
            texts_of(done@).push(piece@) == split(v@.take(i as int), sep),
        decreases v.len() - i,
    {
        proof {
            lemma_split_push(v@.take(i as int), sep, v@[i as int]);
            assert(v@.take(i + 1) == v@.take(i as int).push(v@[i as int]));
            assert(texts_of(done@).push(piece@).drop_last() == texts_of(done@));
        }
        let ghost before = texts_of(done@);
        let ghost cut = piece@;
        if v[i] == sep {
            done.push(piece);
            piece = Vec::new();
            assert(texts_of(done@) =~= before.push(cut));
        } else {
            piece.push(v[i]);
        }
        i += 1;
    }
    assert(v@.take(v.len() as int) == v@);
    let ghost before = texts_of(done@);
    let ghost rest = piece@;
    done.push(piece);
    assert(texts_of(done@) =~= before.push(rest));
    done
}

} // verus!

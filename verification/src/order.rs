//! The lexicographic order on character sequences, and lists kept strictly
//! ascending in it: the sets of this crate.

use crate::text::{chars_of, same_chars};
use vstd::prelude::*;

verus! {

/// `a` comes strictly before `b`: at the first index where they differ `a`
/// has the lower character, or `a` is a proper prefix of `b`.
pub open spec fn lex_lt(a: Seq<char>, b: Seq<char>) -> bool
    decreases a.len(),
{
    if b.len() == 0 {
        false
    } else if a.len() == 0 {
        true
    } else if a[0] != b[0] {
        a[0] < b[0]
    } else {
        lex_lt(a.drop_first(), b.drop_first())
    }
}

/// No sequence comes before itself.
pub proof fn lemma_lex_irreflexive(a: Seq<char>)
    ensures
        !lex_lt(a, a),
    decreases a.len(),
{
    if a.len() > 0 {
        lemma_lex_irreflexive(a.drop_first());
    }
}

/// What comes before a sequence comes before everything after it.
pub proof fn lemma_lex_transitive(a: Seq<char>, b: Seq<char>, c: Seq<char>)
    requires
        lex_lt(a, b),
        lex_lt(b, c),
    ensures
        lex_lt(a, c),
    decreases a.len(),
{
    if a.len() > 0 && b.len() > 0 && c.len() > 0 {
        if a[0] == b[0] && b[0] == c[0] {
            lemma_lex_transitive(a.drop_first(), b.drop_first(), c.drop_first());
        }
    }
}

/// Two sequences of which neither comes before the other are equal.
pub proof fn lemma_lex_total(a: Seq<char>, b: Seq<char>)
    requires
        !lex_lt(a, b),
        !lex_lt(b, a),
    ensures
        a == b,
    decreases a.len(),
{
    if a.len() == 0 || b.len() == 0 {
        assert(a =~= b);
    } else {
        assert(a[0] == b[0]);
        lemma_lex_total(a.drop_first(), b.drop_first());
        assert(a =~= seq![a[0]] + a.drop_first());
        assert(b =~= seq![b[0]] + b.drop_first());
    }
}

proof fn lemma_lex_skip_common(a: Seq<char>, b: Seq<char>, k: int)
    requires
        0 <= k <= a.len(),
        k <= b.len(),
        a.take(k) == b.take(k),
    ensures
        lex_lt(a, b) == lex_lt(a.skip(k), b.skip(k)),
    decreases k,
{
    if k == 0 {
        assert(a.skip(0) == a);
        assert(b.skip(0) == b);
    } else {
        assert(a[0] == a.take(k)[0]);
        assert(b[0] == b.take(k)[0]);
        assert(a.drop_first().take(k - 1) == a.take(k).drop_first());
        assert(b.drop_first().take(k - 1) == b.take(k).drop_first());
        lemma_lex_skip_common(a.drop_first(), b.drop_first(), k - 1);
        assert(a.drop_first().skip(k - 1) == a.skip(k));
        assert(b.drop_first().skip(k - 1) == b.skip(k));
    }
}

/// Compares two character vectors in the lexicographic order.
pub fn chars_less(a: &Vec<char>, b: &Vec<char>) -> (r: bool)
    ensures
        r == lex_lt(a@, b@),
{
    let mut i: usize = 0;
    while i < a.len() && i < b.len()
        invariant
            i <= a.len(),
            i <= b.len(),
            a@.take(i as int) == b@.take(i as int),
        decreases a.len() - i,
    {
        if a[i] != b[i] {
            proof {
                lemma_lex_skip_common(a@, b@, i as int);
            }
            return a[i] < b[i];
        }
        assert(a@.take(i + 1) == a@.take(i as int).push(a@[i as int]));
        assert(b@.take(i + 1) == b@.take(i as int).push(b@[i as int]));
        i += 1;
    }
    proof {
        lemma_lex_skip_common(a@, b@, i as int);
    }
    i < b.len()
}

/// Every element comes strictly before the ones after it.
pub open spec fn strictly_ascending(s: Seq<Seq<char>>) -> bool {
    forall|i: int, j: int| 0 <= i < j < s.len() ==> lex_lt(#[trigger] s[i], #[trigger] s[j])
}

/// A strictly ascending list holds nothing twice.
pub proof fn lemma_ascending_no_duplicates(s: Seq<Seq<char>>)
    requires
        strictly_ascending(s),
    ensures
        s.no_duplicates(),
{
    assert forall|i: int, j: int| 0 <= i < s.len() && 0 <= j < s.len() && i != j implies s[i]
        != s[j] by {
        lemma_lex_irreflexive(s[i]);
        if i < j {
            assert(lex_lt(s[i], s[j]));
        } else {
            assert(lex_lt(s[j], s[i]));
        }
    }
}

/// How many elements at the start of `s` come strictly before `x`.
pub open spec fn rank(s: Seq<Seq<char>>, x: Seq<char>) -> int
    decreases s.len(),
{
    if s.len() > 0 && lex_lt(s[0], x) {
        1 + rank(s.drop_first(), x)
    } else {
        0
    }
}

/// `s` with `x` put in its place, unless `x` is already there.
pub open spec fn with_text(s: Seq<Seq<char>>, x: Seq<char>) -> Seq<Seq<char>> {
    let k = rank(s, x);
    if k < s.len() && s[k] == x {
        s
    } else {
        s.insert(k, x)
    }
}

/// The rank of `x` is the index of the first element that does not come
/// before it.
pub proof fn lemma_rank(s: Seq<Seq<char>>, x: Seq<char>)
    ensures
        0 <= rank(s, x) <= s.len(),
        forall|j: int| 0 <= j < rank(s, x) ==> lex_lt(#[trigger] s[j], x),
        rank(s, x) < s.len() ==> !lex_lt(s[rank(s, x)], x),
    decreases s.len(),
{
    if s.len() > 0 && lex_lt(s[0], x) {
        let rest = s.drop_first();
        lemma_rank(rest, x);
        assert forall|j: int| 0 <= j < rank(s, x) implies lex_lt(#[trigger] s[j], x) by {
            if j > 0 {
                assert(s[j] == rest[j - 1]);
            }
        }
        if rank(s, x) < s.len() {
            assert(s[rank(s, x)] == rest[rank(rest, x)]);
        }
    }
}

proof fn lemma_rank_at(s: Seq<Seq<char>>, x: Seq<char>, k: int)
    requires
        0 <= k <= s.len(),
        forall|j: int| 0 <= j < k ==> lex_lt(#[trigger] s[j], x),
        k < s.len() ==> !lex_lt(s[k], x),
    ensures
        rank(s, x) == k,
    decreases k,
{
    if k > 0 {
        let rest = s.drop_first();
        assert forall|j: int| 0 <= j < k - 1 implies lex_lt(#[trigger] rest[j], x) by {
            assert(rest[j] == s[j + 1]);
        }
        if k < s.len() {
            assert(rest[k - 1] == s[k]);
        }
        lemma_rank_at(rest, x, k - 1);
    }
}

/// Putting a text in its place keeps the list ascending and adds that text
/// to what the list holds, and nothing else.
pub proof fn lemma_with_text(s: Seq<Seq<char>>, x: Seq<char>)
    requires
        strictly_ascending(s),
    ensures
        strictly_ascending(with_text(s, x)),
        forall|y: Seq<char>| with_text(s, x).contains(y) <==> (s.contains(y) || y == x),
        s.contains(x) ==> with_text(s, x) == s,
        !s.contains(x) ==> with_text(s, x).len() == s.len() + 1,
{
    let k = rank(s, x);
    lemma_rank(s, x);
    let t = with_text(s, x);
    if k < s.len() && s[k] == x {
        assert forall|y: Seq<char>| t.contains(y) <==> (s.contains(y) || y == x) by {
            if y == x {
                assert(s[k] == y);
            }
        }
    } else {
        assert(t == s.insert(k, x));
        assert forall|j: int| k <= j < s.len() implies lex_lt(x, #[trigger] s[j]) by {
            if !lex_lt(x, s[j]) {
                if j == k {
                    lemma_lex_total(x, s[k]);
                } else {
                    if lex_lt(s[j], x) {
                        lemma_lex_transitive(s[k], s[j], x);
                    } else {
                        lemma_lex_total(x, s[j]);
                        assert(lex_lt(s[k], s[j]));
                    }
                }
            }
        }
        assert forall|i: int, j: int| 0 <= i < j < t.len() implies lex_lt(
            #[trigger] t[i],
            #[trigger] t[j],
        ) by {
            if i < k && j == k {
            } else if i < k && j > k {
                assert(t[j] == s[j - 1]);
            } else if i == k {
                assert(t[j] == s[j - 1]);
            } else if i < k {
            } else {
                assert(t[i] == s[i - 1]);
                assert(t[j] == s[j - 1]);
            }
        }
        assert forall|y: Seq<char>| t.contains(y) <==> (s.contains(y) || y == x) by {
            if t.contains(y) {
                let i = choose|i: int| 0 <= i < t.len() && t[i] == y;
                if i < k {
                    assert(s[i] == y);
                } else if i > k {
                    assert(s[i - 1] == y);
                }
            }
            if s.contains(y) {
                let i = choose|i: int| 0 <= i < s.len() && s[i] == y;
                if i < k {
                    assert(t[i] == y);
                } else {
                    assert(t[i + 1] == y);
                }
            }
            if y == x {
                assert(t[k] == y);
            }
        }
        if s.contains(x) {
            let i = choose|i: int| 0 <= i < s.len() && s[i] == x;
            lemma_lex_irreflexive(x);
            assert(false);
        }
    }
    if !s.contains(x) && k < s.len() && s[k] == x {
        assert(s.contains(x));
    }
}

/// `s` with each of `texts` put in its place, one after the other.
pub open spec fn with_texts(s: Seq<Seq<char>>, texts: Seq<Seq<char>>) -> Seq<Seq<char>>
    decreases texts.len(),
{
    if texts.len() == 0 {
        s
    } else {
        with_text(with_texts(s, texts.drop_last()), texts.last())
    }
}

/// Putting texts in their places keeps the list ascending and adds those
/// texts to what the list holds, and nothing else.
pub proof fn lemma_with_texts(s: Seq<Seq<char>>, texts: Seq<Seq<char>>)
    requires
        strictly_ascending(s),
    ensures
        strictly_ascending(with_texts(s, texts)),
        forall|y: Seq<char>| with_texts(s, texts).contains(y) <==> (s.contains(y) || texts.contains(y)),
    decreases texts.len(),
{
    if texts.len() > 0 {
        let head = texts.drop_last();
        lemma_with_texts(s, head);
        lemma_with_text(with_texts(s, head), texts.last());
        assert forall|y: Seq<char>|
            with_texts(s, texts).contains(y) <==> (s.contains(y) || texts.contains(y)) by {
            if head.contains(y) {
                let i = choose|i: int| 0 <= i < head.len() && head[i] == y;
                assert(texts[i] == y);
            }
            if texts.contains(y) {
                let i = choose|i: int| 0 <= i < texts.len() && texts[i] == y;
                if i < head.len() {
                    assert(head[i] == y);
                }
            }
            if y == texts.last() {
                assert(texts[texts.len() - 1] == y);
            }
        }
    }
}

/// A set of texts, kept as a strictly ascending list.
pub struct TextSet {
    items: Vec<String>,
}

impl TextSet {
    #[verifier::type_invariant]
    spec fn ascending(self) -> bool {
        strictly_ascending(self.items.deep_view())
    }

    /// The texts of the set, in ascending order.
    pub closed spec fn view(&self) -> Seq<Seq<char>> {
        self.items.deep_view()
    }

    /// The empty set.
    pub fn new() -> (r: TextSet)
        ensures
            r@ == Seq::<Seq<char>>::empty(),
            strictly_ascending(r@),
    {
        let items: Vec<String> = Vec::new();
        assert(items.deep_view() == Seq::<Seq<char>>::empty());
        TextSet { items }
    }

    /// The number of texts. The list of a set is always strictly
    /// ascending.
    pub fn len(&self) -> (n: usize)
        ensures
            n == self@.len(),
            strictly_ascending(self@),
    {
        proof {
            use_type_invariant(self);
        }
        self.items.len()
    }

    /// The text at place `i` of the ascending list.
    pub fn get(&self, i: usize) -> (r: &String)
        requires
            i < self@.len(),
        ensures
            r@ == self@[i as int],
    {
        &self.items[i]
    }

    /// Where `x` stands in the list, or would stand.
    fn place(&self, x: &Vec<char>) -> (r: (usize, bool))
        ensures
            r.0 == rank(self@, x@),
            r.1 == self@.contains(x@),
            r.1 == (r.0 < self@.len() && self@[r.0 as int] == x@),
    {
        proof {
            use_type_invariant(self);
            lemma_rank(self@, x@);
        }
        let mut k: usize = 0;
        while k < self.items.len()
            invariant
                k <= self.items.len(),
                self@ == self.items.deep_view(),
                strictly_ascending(self@),
                forall|j: int| 0 <= j < k ==> lex_lt(#[trigger] self@[j], x@),
            decreases self.items.len() - k,
        {
            let item = chars_of(self.items[k].as_str());
            assert(item@ == self@[k as int]);
            if !chars_less(&item, x) {
                proof {
                    lemma_rank_at(self@, x@, k as int);
                    lemma_with_text(self@, x@);
                }
                let found = same_chars(&item, x);
                proof {
                    if !found && self@.contains(x@) {
                        let i = choose|i: int| 0 <= i < self@.len() && self@[i] == x@;
                        lemma_lex_irreflexive(x@);
                        if i > k {
                            assert(lex_lt(self@[k as int], self@[i]));
                            lemma_lex_total_or_after(self@[k as int], x@);
                        }
                    }
                }
                return (k, found);
            }
            k += 1;
        }
        proof {
            lemma_rank_at(self@, x@, k as int);
            lemma_lex_irreflexive(x@);
        }
        (k, false)
    }

    /// Whether `x` is in the set.
    pub fn contains(&self, x: &str) -> (r: bool)
        ensures
            r == self@.contains(x@),
    {
        let chars = chars_of(x);
        self.place(&chars).1
    }

    /// Adds each of `texts`.
    pub fn insert_all(&mut self, texts: &Vec<String>)
        ensures
            final(self)@ == with_texts(old(self)@, texts.deep_view()),
            forall|y: Seq<char>|
                final(self)@.contains(y) <==> (old(self)@.contains(y) || texts.deep_view().contains(
                    y,
                )),
            strictly_ascending(final(self)@),
    {
        let ghost all = texts.deep_view();
        let mut i: usize = 0;
        proof {
            use_type_invariant(&*self);
            lemma_with_texts(self@, all);
            assert(all.take(0) =~= Seq::empty());
        }
        while i < texts.len()
            invariant
                i <= texts.len(),
                all == texts.deep_view(),
                self@ == with_texts(old(self)@, all.take(i as int)),
            decreases texts.len() - i,
        {
            assert(all.take(i + 1).drop_last() == all.take(i as int));
            self.insert(texts[i].clone());
            i += 1;
        }
        assert(all.take(texts.len() as int) == all);
    }

    /// Adds `x`; tells whether it was new.
    pub fn insert(&mut self, x: String) -> (added: bool)
        ensures
            final(self)@ == with_text(old(self)@, x@),
            added == !old(self)@.contains(x@),
            forall|y: Seq<char>| final(self)@.contains(y) <==> (old(self)@.contains(y) || y == x@),
            strictly_ascending(final(self)@),
    {
        proof {
            use_type_invariant(&*self);
            lemma_with_text(self@, x@);
            lemma_rank(self@, x@);
        }
        let chars = chars_of(x.as_str());
        let (k, found) = self.place(&chars);
        if found {
            false
        } else {
            let ghost before = self.items.deep_view();
            let mut items: Vec<String> = Vec::new();
            assert(items.deep_view() =~= Seq::<Seq<char>>::empty());
            core::mem::swap(&mut self.items, &mut items);
            items.insert(k, x);
            assert(items.deep_view() =~= before.insert(k as int, x@));
            core::mem::swap(&mut self.items, &mut items);
            true
        }
    }

    /// The texts in ascending order, each once.
    pub fn into_vec(self) -> (r: Vec<String>)
        ensures
            r.deep_view() == self@,
            strictly_ascending(r.deep_view()),
            r.deep_view().no_duplicates(),
    {
        proof {
            use_type_invariant(&self);
            lemma_ascending_no_duplicates(self@);
        }
        self.items
    }
}

/// A text that does not come before `x` and is not `x` comes after it.
proof fn lemma_lex_total_or_after(a: Seq<char>, x: Seq<char>)
    requires
        !lex_lt(a, x),
        a != x,
    ensures
        lex_lt(x, a),
{
    if !lex_lt(x, a) {
        lemma_lex_total(a, x);
    }
}

} // verus!

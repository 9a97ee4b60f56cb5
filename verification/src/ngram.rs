//! Interning of n-grams: each is kept once, in an arena.

use vstd::prelude::*;
use crate::text::{
    chars_of, is_white_space, join, joined, lemma_word_length, split_words, views, word_length,
    words_of,
};
use crate::text_laws::white_space_parts_words;

verus! {

broadcast use vstd::seq::group_seq_axioms;

/// A bump arena of `bumpalo`.
#[verifier::external_type_specification]
#[verifier::external_body]
pub struct ExBump<const MIN_ALIGN: usize>(bumpalo::Bump<MIN_ALIGN>);

/// `Bump::alloc_str` copies a string into the arena and hands out the copy, which lives
/// as long as the arena is borrowed.
#[verifier::external_body]
fn alloc_str<'a>(arena: &'a bumpalo::Bump, s: &str) -> (r: &'a str)
    ensures
        r@ == s@,
{
    arena.alloc_str(s)
}

/// Whether `a` comes before `b` in the order of their first different characters, a
/// text's beginnings before the text.
pub open spec fn comes_before(a: Seq<char>, b: Seq<char>) -> bool
    decreases a.len(),
{
    if b.len() == 0 {
        false
    } else if a.len() == 0 {
        true
    } else if a[0] != b[0] {
        a[0] < b[0]
    } else {
        comes_before(a.drop_first(), b.drop_first())
    }
}

proof fn lemma_before_is_strict(a: Seq<char>)
    ensures
        !comes_before(a, a),
    decreases a.len(),
{
    if a.len() > 0 {
        lemma_before_is_strict(a.drop_first());
    }
}

proof fn lemma_before_is_transitive(a: Seq<char>, b: Seq<char>, c: Seq<char>)
    requires
        comes_before(a, b),
        comes_before(b, c),
    ensures
        comes_before(a, c),
    decreases a.len(),
{
    if a.len() > 0 && a[0] == b[0] && b[0] == c[0] {
        lemma_before_is_transitive(a.drop_first(), b.drop_first(), c.drop_first());
    }
}

proof fn lemma_before_is_total(a: Seq<char>, b: Seq<char>)
    ensures
        comes_before(a, b) || comes_before(b, a) || a == b,
    decreases a.len(),
{
    if a.len() > 0 && b.len() > 0 {
        if a[0] == b[0] {
            lemma_before_is_total(a.drop_first(), b.drop_first());
            if a.drop_first() == b.drop_first() {
                assert(a =~= seq![a[0]] + a.drop_first());
                assert(b =~= seq![b[0]] + b.drop_first());
            }
        }
    } else if a.len() == 0 && b.len() == 0 {
        assert(a =~= b);
    }
}

/// Whether texts stand in order, each of them once.
pub open spec fn in_order(texts: Seq<Seq<char>>) -> bool {
    forall|i: int, j: int|
        #![trigger texts[i], texts[j]]
        0 <= i < j < texts.len() ==> comes_before(texts[i], texts[j])
}

/// Texts in order are determined by which they are: two such lists that hold the same
/// texts are the same list.
pub proof fn order_determines_a_list(a: Seq<Seq<char>>, b: Seq<Seq<char>>)
    requires
        in_order(a),
        in_order(b),
        a.to_set() == b.to_set(),
    ensures
        a == b,
    decreases a.len(),
{
    if a.len() == 0 {
        if b.len() > 0 {
            assert(b.to_set().contains(b[0]));
            assert(a.to_set().contains(b[0]));
        }
        assert(a =~= b);
    } else {
        assert(a.to_set().contains(a.last()));
        assert(b.to_set().contains(a.last()));
        assert(b.len() > 0);
        assert(b.to_set().contains(b.last()));
        assert(a.to_set().contains(b.last()));
        if a.last() != b.last() {
            let i = choose|i: int| 0 <= i < b.len() && b[i] == a.last();
            let j = choose|j: int| 0 <= j < a.len() && a[j] == b.last();
            assert(comes_before(b[i], b.last()));
            assert(comes_before(a[j], a.last()));
            lemma_before_is_transitive(a.last(), b.last(), a.last());
            lemma_before_is_strict(a.last());
            assert(false);
        }
        let x = a.drop_last();
        let y = b.drop_last();
        assert forall|s: Seq<char>| x.to_set().contains(s) == y.to_set().contains(s) by {
            lemma_without_last(a, s);
            lemma_without_last(b, s);
        }
        assert(x.to_set() =~= y.to_set());
        order_determines_a_list(x, y);
        assert(a =~= x.push(a.last()));
        assert(b =~= y.push(b.last()));
    }
}

proof fn lemma_without_last(a: Seq<Seq<char>>, s: Seq<char>)
    requires
        in_order(a),
        a.len() > 0,
    ensures
        a.drop_last().to_set().contains(s) == (a.to_set().contains(s) && s != a.last()),
{
    if a.to_set().contains(s) && s != a.last() {
        let i = choose|i: int| 0 <= i < a.len() && a[i] == s;
        assert(a.drop_last()[i] == s);
    }
    if a.drop_last().to_set().contains(s) {
        let i = choose|i: int| 0 <= i < a.len() - 1 && a.drop_last()[i] == s;
        assert(a[i] == s);
        assert(comes_before(a[i], a.last()));
        lemma_before_is_strict(s);
    }
}

proof fn lemma_in_order_is_unique(texts: Seq<Seq<char>>)
    requires
        in_order(texts),
    ensures
        texts.no_duplicates(),
{
    assert forall|i: int, j: int| 0 <= i < texts.len() && 0 <= j < texts.len() && i != j implies
        texts[i] != texts[j] by {
        if i < j {
            assert(comes_before(texts[i], texts[j]));
        } else {
            assert(comes_before(texts[j], texts[i]));
        }
        lemma_before_is_strict(texts[i]);
    }
}

/// How two texts compare.
#[derive(Debug)]
enum Place {
    Before,
    Same,
    After,
}

fn compare_texts(a: &str, b: &str) -> (r: Place)
    ensures
        r is Before <==> comes_before(a@, b@),
        r is Same <==> a@ == b@,
        r is After <==> comes_before(b@, a@),
{
    let x = chars_of(a);
    let y = chars_of(b);
    let mut i: usize = 0;
    proof {
        lemma_before_is_strict(a@);
        lemma_before_is_total(a@, b@);
        if comes_before(a@, b@) && comes_before(b@, a@) {
            lemma_before_is_transitive(a@, b@, a@);
        }
        assert(x@.skip(0) =~= x@);
        assert(y@.skip(0) =~= y@);
    }
    while i < x.len() && i < y.len() && x[i] == y[i]
        invariant
            i <= x@.len(),
            i <= y@.len(),
            x@.take(i as int) == y@.take(i as int),
            comes_before(x@, y@) == comes_before(x@.skip(i as int), y@.skip(i as int)),
            comes_before(y@, x@) == comes_before(y@.skip(i as int), x@.skip(i as int)),
        decreases x@.len() - i,
    {
        proof {
            assert(x@.skip(i as int).drop_first() =~= x@.skip(i + 1));
            assert(y@.skip(i as int).drop_first() =~= y@.skip(i + 1));
            assert(x@.take(i + 1) =~= x@.take(i as int).push(x@[i as int]));
            assert(y@.take(i + 1) =~= y@.take(i as int).push(y@[i as int]));
        }
        i = i + 1;
    }
    if i == y.len() {
        if i == x.len() {
            assert(x@ =~= x@.take(i as int));
            assert(y@ =~= y@.take(i as int));
            Place::Same
        } else {
            Place::After
        }
    } else if i == x.len() {
        Place::Before
    } else if x[i] < y[i] {
        Place::Before
    } else {
        Place::After
    }
}

/// The views of borrowed strings.
pub open spec fn str_views(texts: Seq<&str>) -> Seq<Seq<char>> {
    texts.map_values(|s: &str| s@)
}

/// Where a text stands among texts in order, or would stand, and whether it is there.
fn place<'a>(texts: &Vec<&'a str>, s: &str) -> (r: (usize, bool))
    requires
        in_order(str_views(texts@)),
    ensures
        r.0 <= texts@.len(),
        r.1 == str_views(texts@).to_set().contains(s@),
        r.1 ==> r.0 < texts@.len() && texts@[r.0 as int]@ == s@,
        !r.1 ==> in_order(str_views(texts@).insert(r.0 as int, s@)),
{
    let ghost all = str_views(texts@);
    let mut i: usize = 0;
    while i < texts.len()
        invariant
            i <= texts@.len(),
            all == str_views(texts@),
            in_order(all),
            forall|j: int| 0 <= j < i ==> comes_before(#[trigger] all[j], s@),
        decreases texts@.len() - i,
    {
        assert(all[i as int] == texts@[i as int]@);
        match compare_texts(texts[i], s) {
            Place::Before => {
                i = i + 1;
            },
            Place::Same => {
                assert(all.contains(s@));
                return (i, true);
            },
            Place::After => {
                proof {
                    lemma_inserted(all, i as int, s@);
                }
                return (i, false);
            },
        }
    }
    proof {
        lemma_inserted(all, i as int, s@);
    }
    (i, false)
}

proof fn lemma_inserted(all: Seq<Seq<char>>, at: int, s: Seq<char>)
    requires
        in_order(all),
        0 <= at <= all.len(),
        forall|j: int| 0 <= j < at ==> comes_before(#[trigger] all[j], s),
        at < all.len() ==> comes_before(s, all[at]),
    ensures
        in_order(all.insert(at, s)),
        !all.to_set().contains(s),
{
    assert forall|j: int| at <= j < all.len() implies comes_before(s, #[trigger] all[j]) by {
        if j > at {
            assert(comes_before(all[at], all[j]));
            lemma_before_is_transitive(s, all[at], all[j]);
        }
    }
    let more = all.insert(at, s);
    assert forall|i: int, j: int|
        #![trigger more[i], more[j]]
        0 <= i < j < more.len() implies comes_before(more[i], more[j]) by {
        if i < at {
            assert(more[i] == all[i]);
        } else if i > at {
            assert(more[i] == all[i - 1]);
        }
        if j < at {
            assert(more[j] == all[j]);
        } else if j > at {
            assert(more[j] == all[j - 1]);
        }
    }
    if all.to_set().contains(s) {
        let k = choose|k: int| 0 <= k < all.len() && all[k] == s;
        lemma_before_is_strict(s);
        assert(false);
    }
}

/// Adds a text to texts in order, unless it is there already.
fn keep<'a>(texts: &mut Vec<&'a str>, s: &'a str)
    requires
        in_order(str_views(old(texts)@)),
    ensures
        in_order(str_views(final(texts)@)),
        str_views(final(texts)@).to_set() == str_views(old(texts)@).to_set().insert(s@),
{
    let (at, found) = place(texts, s);
    let ghost all = str_views(texts@);
    if found {
        assert(all.to_set().insert(s@) =~= all.to_set());
    } else {
        texts.insert(at, s);
        proof {
            lemma_insert_set(all, at as int, s@);
            assert(str_views(texts@) =~= all.insert(at as int, s@));
        }
    }
}

proof fn lemma_insert_set(all: Seq<Seq<char>>, at: int, s: Seq<char>)
    requires
        0 <= at <= all.len(),
    ensures
        all.insert(at, s).to_set() == all.to_set().insert(s),
{
    let more = all.insert(at, s);
    assert forall|t: Seq<char>| more.to_set().contains(t) == all.to_set().insert(s).contains(
        t,
    ) by {
        if more.to_set().contains(t) {
            let k = choose|k: int| 0 <= k < more.len() && more[k] == t;
            if k < at {
                assert(all[k] == t);
            } else if k > at {
                assert(all[k - 1] == t);
            }
        }
        if t == s {
            assert(more[at] == s);
        } else if all.to_set().contains(t) {
            let k = choose|k: int| 0 <= k < all.len() && all[k] == t;
            if k < at {
                assert(more[k] == t);
            } else {
                assert(more[k + 1] == t);
            }
        }
    }
    assert(more.to_set() =~= all.to_set().insert(s));
}

/// How many runs of `n` words there are among `words` words.
pub open spec fn window_count(words: nat, n: nat) -> nat {
    if words < n {
        0
    } else {
        (words - n + 1) as nat
    }
}

/// The n-grams of a text: every run of `n` words, joined by spaces, from the left.
pub open spec fn ngrams_of(text: Seq<char>, n: nat) -> Seq<Seq<char>> {
    let words = words_of(text);
    Seq::new(
        window_count(words.len(), n),
        |i: int| joined(words.subrange(i, i + n), seq![' ']),
    )
}

/// Interned texts: an arena and what was put into it, in order.
#[derive(Debug)]
struct Interned<'a> {
    arena: &'a bumpalo::Bump,
    seen: Vec<&'a str>,
}

impl<'a> Interned<'a> {
    spec fn texts(&self) -> Set<Seq<char>> {
        str_views(self.seen@).to_set()
    }

    spec fn wf(&self) -> bool {
        in_order(str_views(self.seen@))
    }

    fn new(arena: &'a bumpalo::Bump) -> (r: Self)
        ensures
            r.wf(),
            r.texts() == Set::<Seq<char>>::empty(),
    {
        let r = Interned { arena, seen: Vec::new() };
        assert(str_views(r.seen@) =~= Seq::empty());
        assert(r.texts() =~= Set::<Seq<char>>::empty());
        r
    }

    fn intern(&mut self, s: &str) -> (r: &'a str)
        requires
            old(self).wf(),
        ensures
            final(self).wf(),
            r@ == s@,
            final(self).texts() == old(self).texts().insert(s@),
    {
        let (at, found) = place(&self.seen, s);
        let ghost all = str_views(self.seen@);
        if found {
            assert(all.to_set().insert(s@) =~= all.to_set());
            self.seen[at]
        } else {
            let slice = alloc_str(self.arena, s);
            self.seen.insert(at, slice);
            proof {
                lemma_insert_set(all, at as int, s@);
                assert(str_views(self.seen@) =~= all.insert(at as int, s@));
            }
            slice
        }
    }

    fn intern_ngrams(&mut self, text: &str, n: usize) -> (r: Vec<&'a str>)
        requires
            old(self).wf(),
            n > 0,
        ensures
            final(self).wf(),
            in_order(str_views(r@)),
            str_views(r@).to_set() == ngrams_of(text@, n as nat).to_set(),
            final(self).texts() == old(self).texts().union(ngrams_of(text@, n as nat).to_set()),
    {
        let words = split_words(text);
        let ghost ngrams = ngrams_of(text@, n as nat);
        let mut unique: Vec<&'a str> = Vec::new();
        let count: usize = words.len();
        assert(views(words@).len() == count);
        assert(str_views(unique@) =~= Seq::empty());
        assert(str_views(unique@).to_set() =~= ngrams.take(0).to_set());
        assert(self.texts().union(ngrams.take(0).to_set()) =~= self.texts());
        let mut i: usize = 0;
        while n <= count && i <= count - n
            invariant
                n > 0,
                count == words@.len(),
                ngrams == ngrams_of(text@, n as nat),
                views(words@) == words_of(text@),
                i <= ngrams.len(),
                ngrams.len() == window_count(count as nat, n as nat),
                self.wf(),
                in_order(str_views(unique@)),
                str_views(unique@).to_set() == ngrams.take(i as int).to_set(),
                self.texts() == old(self).texts().union(ngrams.take(i as int).to_set()),
            decreases count - i,
        {
            let mut window: Vec<String> = Vec::new();
            let mut k: usize = 0;
            while k < n
                invariant
                    k <= n,
                    i + n <= count == words@.len(),
                    views(window@) == views(words@).subrange(i as int, i + k),
                decreases n - k,
            {
                let ghost before = window@;
                let word = words[i + k].clone();
                window.push(word);
                proof {
                    assert(views(window@) =~= views(before).push(word@));
                    assert(views(words@).subrange(i as int, i + k + 1) =~= views(words@).subrange(
                        i as int,
                        i + k,
                    ).push(word@));
                }
                k = k + 1;
            }
            let ngram = join(&window, " ");
            proof {
                reveal_strlit(" ");
                assert(" "@ =~= seq![' ']);
                assert(ngram@ == ngrams[i as int]);
                assert(ngrams.take(i + 1) =~= ngrams.take(i as int).push(ngram@));
                lemma_push_set(ngrams.take(i as int), ngram@);
            }
            let slice = self.intern(ngram.as_str());
            keep(&mut unique, slice);
            proof {
                assert(self.texts() =~= old(self).texts().union(
                    ngrams.take(i + 1).to_set(),
                ));
            }
            i = i + 1;
        }
        assert(ngrams.take(i as int) =~= ngrams);
        unique
    }
}

proof fn lemma_push_set(all: Seq<Seq<char>>, s: Seq<char>)
    ensures
        all.push(s).to_set() == all.to_set().insert(s),
{
    assert(all.push(s) =~= all.insert(all.len() as int, s));
    lemma_insert_set(all, all.len() as int, s);
}

/// An interning n-gram builder that allocates unique strings into a bump arena.
///
/// All returned slices point into the arena and remain valid for its lifetime.
/// Duplicate n-grams are interned, so each unique n-gram is allocated once.
#[derive(Debug)]
pub struct NgramIntern<'a> {
    kept: Interned<'a>,
}

impl<'a> NgramIntern<'a> {
    /// The texts that were interned.
    pub closed spec fn texts(&self) -> Set<Seq<char>> {
        self.kept.texts()
    }

    /// Each text is kept once.
    pub closed spec fn wf(&self) -> bool {
        self.kept.wf()
    }

    /// Nothing is interned yet.
    pub fn new(arena: &'a bumpalo::Bump) -> (r: Self)
        ensures
            r.wf(),
            r.texts() == Set::<Seq<char>>::empty(),
    {
        NgramIntern { kept: Interned::new(arena) }
    }

    /// Interns a single string. If it was already interned, the existing slice comes
    /// back.
    pub fn intern(&mut self, s: &str) -> (r: &'a str)
        requires
            old(self).wf(),
        ensures
            final(self).wf(),
            r@ == s@,
            final(self).texts() == old(self).texts().insert(s@),
    {
        self.kept.intern(s)
    }

    /// Interns all n-grams of a text, and gives them in order, each once.
    pub fn build_ngrams(&mut self, text: &str, n: usize) -> (r: Vec<&'a str>)
        requires
            old(self).wf(),
            n > 0,
        ensures
            final(self).wf(),
            in_order(str_views(r@)),
            str_views(r@).to_set() == ngrams_of(text@, n as nat).to_set(),
            final(self).texts() == old(self).texts().union(ngrams_of(text@, n as nat).to_set()),
    {
        self.kept.intern_ngrams(text, n)
    }
}

/// Interning n-gram builder. Deduplicates n-grams and allocates each unique one exactly
/// once into a bump arena.
#[derive(Debug)]
pub struct NgramBuilder<'a> {
    kept: Interned<'a>,
}

impl<'a> NgramBuilder<'a> {
    /// The texts that were interned.
    pub closed spec fn texts(&self) -> Set<Seq<char>> {
        self.kept.texts()
    }

    /// Each text is kept once.
    pub closed spec fn wf(&self) -> bool {
        self.kept.wf()
    }

    /// Nothing is interned yet.
    pub fn new(arena: &'a bumpalo::Bump) -> (r: Self)
        ensures
            r.wf(),
            r.texts() == Set::<Seq<char>>::empty(),
    {
        NgramBuilder { kept: Interned::new(arena) }
    }

    /// Interns a string. If it was already interned, the existing slice comes back.
    pub fn intern(&mut self, s: &str) -> (r: &'a str)
        requires
            old(self).wf(),
        ensures
            final(self).wf(),
            r@ == s@,
            final(self).texts() == old(self).texts().insert(s@),
    {
        self.kept.intern(s)
    }

    /// Takes the words of a text, interns all of its n-grams, and gives them in order,
    /// each once.
    pub fn add_text(&mut self, text: &str, n: usize) -> (r: Vec<&'a str>)
        requires
            old(self).wf(),
            n > 0,
        ensures
            final(self).wf(),
            in_order(str_views(r@)),
            str_views(r@).to_set() == ngrams_of(text@, n as nat).to_set(),
            final(self).texts() == old(self).texts().union(ngrams_of(text@, n as nat).to_set()),
    {
        self.kept.intern_ngrams(text, n)
    }

    /// How many different strings were interned so far.
    pub fn len(&self) -> (r: usize)
        requires
            self.wf(),
        ensures
            r == self.texts().len(),
    {
        proof {
            let all = str_views(self.kept.seen@);
            lemma_in_order_is_unique(all);
            all.unique_seq_to_set();
        }
        self.kept.seen.len()
    }

    /// Whether nothing was interned yet.
    pub fn is_empty(&self) -> (r: bool)
        requires
            self.wf(),
        ensures
            r == (self.texts() == Set::<Seq<char>>::empty()),
    {
        let r = self.kept.seen.len() == 0;
        proof {
            let all = str_views(self.kept.seen@);
            if r {
                assert(all.to_set() =~= Set::<Seq<char>>::empty());
            } else {
                assert(all.to_set().contains(all[0]));
            }
        }
        r
    }

    /// All interned strings, in order.
    pub fn all(&self) -> (r: Vec<&'a str>)
        requires
            self.wf(),
        ensures
            in_order(str_views(r@)),
            str_views(r@).to_set() == self.texts(),
    {
        let mut out: Vec<&'a str> = Vec::new();
        let mut i: usize = 0;
        while i < self.kept.seen.len()
            invariant
                i <= self.kept.seen@.len(),
                out@ == self.kept.seen@.take(i as int),
            decreases self.kept.seen@.len() - i,
        {
            out.push(self.kept.seen[i]);
            i = i + 1;
        }
        assert(out@ =~= self.kept.seen@);
        out
    }
}

/// A text that was added adds nothing when it is added again.
pub proof fn added_texts_add_nothing_more(texts: Set<Seq<char>>, text: Seq<char>, n: nat)
    ensures
        ({
            let ngrams = ngrams_of(text, n).to_set();
            texts.union(ngrams).union(ngrams) == texts.union(ngrams)
        }),
{
    let ngrams = ngrams_of(text, n).to_set();
    assert(texts.union(ngrams).union(ngrams) =~= texts.union(ngrams));
}

/// In which order texts are added makes no difference.
pub proof fn texts_can_be_added_in_any_order(
    texts: Set<Seq<char>>,
    first: Seq<char>,
    second: Seq<char>,
    n: nat,
)
    ensures
        ({
            let a = ngrams_of(first, n).to_set();
            let b = ngrams_of(second, n).to_set();
            texts.union(a).union(b) == texts.union(b).union(a)
        }),
{
    let a = ngrams_of(first, n).to_set();
    let b = ngrams_of(second, n).to_set();
    assert(texts.union(a).union(b) =~= texts.union(b).union(a));
}

/// A text has at most as many different n-grams as it has runs of words.
pub proof fn ngrams_are_at_most_the_windows(text: Seq<char>, n: nat)
    ensures
        ngrams_of(text, n).to_set().len() <= window_count(words_of(text).len(), n),
{
    vstd::seq_lib::seq_to_set_is_finite(ngrams_of(text, n));
    ngrams_of(text, n).lemma_cardinality_of_set();
}

/// The first difference decides about the order, by the smaller character, and where there
/// is none a text comes after its beginnings.
pub proof fn the_first_difference_decides(
    front: Seq<char>,
    a: char,
    b: char,
    x: Seq<char>,
    y: Seq<char>,
)
    ensures
        a != b ==> (comes_before(front.push(a) + x, front.push(b) + y) <==> a < b),
        comes_before(front, front.push(a) + x),
        !comes_before(front.push(a) + x, front),
        !comes_before(front, front),
    decreases front.len(),
{
    lemma_before_is_strict(front);
    let s = front.push(a) + x;
    let t = front.push(b) + y;
    if front.len() > 0 {
        let rest = front.drop_first();
        assert(s.drop_first() =~= rest.push(a) + x);
        assert(t.drop_first() =~= rest.push(b) + y);
        assert(s[0] == front[0] && t[0] == front[0]);
        the_first_difference_decides(rest, a, b, x, y);
    } else {
        assert(s[0] == a && t[0] == b);
    }
}

/// Whether a text is a word: something, and none of it white space.
pub open spec fn is_word(s: Seq<char>) -> bool {
    s.len() > 0 && forall|i: int| 0 <= i < s.len() ==> !is_white_space(#[trigger] s[i])
}

/// The words of a text are words.
proof fn lemma_words_are_words(s: Seq<char>)
    ensures
        forall|i: int| 0 <= i < words_of(s).len() ==> is_word(#[trigger] words_of(s)[i]),
    decreases s.len(),
{
    if s.len() > 0 {
        if is_white_space(s[0]) {
            lemma_words_are_words(s.drop_first());
            assert(words_of(s) == words_of(s.drop_first()));
        } else {
            lemma_word_length(s);
            let n = word_length(s) as int;
            lemma_words_are_words(s.skip(n));
            assert forall|i: int| 0 <= i < words_of(s).len() implies is_word(
                #[trigger] words_of(s)[i],
            ) by {
                if i > 0 {
                    assert(words_of(s)[i] == words_of(s.skip(n))[i - 1]);
                } else {
                    assert(words_of(s)[0] == s.take(n));
                    assert(n > 0);
                }
            }
        }
    }
}

/// Words joined by spaces are read as those words.
proof fn lemma_joined_words(words: Seq<Seq<char>>)
    requires
        forall|i: int| 0 <= i < words.len() ==> is_word(#[trigger] words[i]),
    ensures
        words_of(joined(words, seq![' '])) == words,
    decreases words.len(),
{
    if words.len() == 0 {
        assert(words_of(joined(words, seq![' '])) =~= words);
    } else {
        let fewer = words.drop_last();
        let last = words[words.len() - 1];
        assert(is_word(last));
        white_space_parts_words(last, ' ', Seq::empty());
        if words.len() == 1 {
            assert(joined(words, seq![' ']) =~= last);
        } else {
            assert forall|i: int| 0 <= i < fewer.len() implies is_word(#[trigger] fewer[i]) by {
                assert(fewer[i] == words[i]);
            }
            lemma_joined_words(fewer);
            let front = joined(fewer, seq![' ']);
            white_space_parts_words(front, ' ', last);
            assert(joined(words, seq![' ']) =~= front.push(' ') + last);
        }
        assert(words_of(joined(words, seq![' '])) =~= words);
    }
}

/// There is one n-gram for each run of `n` words, and the words of the n-gram at an index
/// are the `n` words of the text from that index on, in order.
pub proof fn ngrams_are_the_runs_of_words(text: Seq<char>, n: nat, i: int)
    requires
        n > 0,
    ensures
        words_of(text).len() < n ==> ngrams_of(text, n).len() == 0,
        words_of(text).len() >= n ==> ngrams_of(text, n).len() == words_of(text).len() - n + 1,
        0 <= i < ngrams_of(text, n).len() ==> words_of(ngrams_of(text, n)[i]) == words_of(
            text,
        ).subrange(i, i + n) && !is_white_space(ngrams_of(text, n)[i][0]) && !is_white_space(
            ngrams_of(text, n)[i].last(),
        ),
{
    if 0 <= i < ngrams_of(text, n).len() {
        let words = words_of(text);
        let run = words.subrange(i, i + n);
        lemma_words_are_words(text);
        assert forall|k: int| 0 <= k < run.len() implies is_word(#[trigger] run[k]) by {
            assert(run[k] == words[i + k]);
        }
        lemma_joined_words(run);
        lemma_joined_ends(run);
    }
}

/// Words joined by spaces start with the first and end with the last.
proof fn lemma_joined_ends(words: Seq<Seq<char>>)
    requires
        words.len() > 0,
        forall|i: int| 0 <= i < words.len() ==> is_word(#[trigger] words[i]),
    ensures
        joined(words, seq![' ']).len() > 0,
        joined(words, seq![' '])[0] == words[0][0],
        joined(words, seq![' ']).last() == words.last().last(),
        !is_white_space(words[0][0]),
        !is_white_space(words.last().last()),
    decreases words.len(),
{
    let last = words[words.len() - 1];
    assert(is_word(last));
    assert(is_word(words[0]));
    assert(!is_white_space(last[last.len() - 1]));
    if words.len() > 1 {
        let fewer = words.drop_last();
        assert forall|i: int| 0 <= i < fewer.len() implies is_word(#[trigger] fewer[i]) by {
            assert(fewer[i] == words[i]);
        }
        lemma_joined_ends(fewer);
    }
}

/// N-grams of one word are the words.
pub proof fn single_words_are_ngrams(text: Seq<char>)
    ensures
        ngrams_of(text, 1) == words_of(text),
{
    let words = words_of(text);
    assert forall|i: int| 0 <= i < words.len() implies #[trigger] ngrams_of(text, 1)[i]
        == words[i] by {
        assert(words.subrange(i, i + 1) =~= seq![words[i]]);
    }
    assert(ngrams_of(text, 1) =~= words);
}

} // verus!

//! The two rankings of the reading dataset: the five publishers with the
//! most books, and the five authors with the most reviews, each with their
//! three most reviewed books.
//!
//! The per-book work runs on rayon's thread pool; the counting, grouping
//! and ranking that follow are verified here.

use crate::book::Book;
use crate::commands::{trim_text, trimmed};
use crate::text::{parse_unsigned, parse_unsigned_text};
use rayon::iter::{IntoParallelRefIterator, ParallelIterator};
use vstd::hash_map::StringHashMap;
use vstd::prelude::*;

verus! {

/// How many publishers and authors a ranking keeps.
pub const TOP_FIVE: usize = 5;

/// How many books are listed for each author.
pub const TOP_BOOKS_COUNT: usize = 3;

// ----------------------------------------------------------------------------
// The order of texts
// ----------------------------------------------------------------------------

/// `a` comes before `b` in the lexicographic order of code points (the
/// order in which Rust compares `String`s, since UTF-8 keeps it).
pub open spec fn text_less(a: Seq<char>, b: Seq<char>) -> bool
    decreases a.len(),
{
    if a.len() == 0 {
        b.len() > 0
    } else if b.len() == 0 {
        false
    } else if a[0] != b[0] {
        (a[0] as u32) < (b[0] as u32)
    } else {
        text_less(a.drop_first(), b.drop_first())
    }
}

proof fn lemma_text_less_irreflexive(a: Seq<char>)
    ensures
        !text_less(a, a),
    decreases a.len(),
{
    if a.len() > 0 {
        lemma_text_less_irreflexive(a.drop_first());
    }
}

proof fn lemma_text_less_transitive(a: Seq<char>, b: Seq<char>, c: Seq<char>)
    requires
        text_less(a, b),
        text_less(b, c),
    ensures
        text_less(a, c),
    decreases a.len(),
{
    if a.len() > 0 && a[0] == b[0] && b[0] == c[0] {
        lemma_text_less_transitive(a.drop_first(), b.drop_first(), c.drop_first());
    }
}

/// Whether `a` comes before `b` (see `text_less`).
fn text_is_less(a: &str, b: &str) -> (r: bool)
    ensures
        r == text_less(a@, b@),
{
    let na = a.unicode_len();
    let nb = b.unicode_len();
    let mut i: usize = 0;
    assert(a@.skip(0) =~= a@ && b@.skip(0) =~= b@);
    while i < na && i < nb
        invariant
            na == a@.len(),
            nb == b@.len(),
            i <= na,
            i <= nb,
            text_less(a@, b@) == text_less(a@.skip(i as int), b@.skip(i as int)),
        decreases na - i,
    {
        let ca = a.get_char(i);
        let cb = b.get_char(i);
        if ca != cb {
            return (ca as u32) < (cb as u32);
        }
        assert(a@.skip(i as int).drop_first() =~= a@.skip(i + 1));
        assert(b@.skip(i as int).drop_first() =~= b@.skip(i + 1));
        i = i + 1;
    }
    i == na && i < nb
}

// ----------------------------------------------------------------------------
// Rankings
// ----------------------------------------------------------------------------

/// `before` is a strict order: nothing comes before itself, and coming
/// before is transitive.
pub open spec fn strict_order<A>(before: spec_fn(A, A) -> bool) -> bool {
    &&& forall|x: A| !#[trigger] before(x, x)
    &&& forall|x: A, y: A, z: A|
        #![trigger before(x, y), before(y, z)]
        before(x, y) && before(y, z) ==> before(x, z)
}

/// No entry of `s` comes strictly before an earlier one.
pub open spec fn sorted_by<A>(s: Seq<A>, before: spec_fn(A, A) -> bool) -> bool {
    forall|a: int, b: int| 0 <= a < b < s.len() ==> !before(#[trigger] s[b], #[trigger] s[a])
}

/// `x` comes strictly before no entry of `s`.
pub open spec fn after_all<A>(x: A, s: Seq<A>, before: spec_fn(A, A) -> bool) -> bool {
    forall|t: int| 0 <= t < s.len() ==> !before(x, #[trigger] s[t])
}

/// Inserting `e` just before the first entry it comes before keeps a
/// ranking sorted.
proof fn lemma_insert_sorted<A>(s: Seq<A>, e: A, p: int, before: spec_fn(A, A) -> bool)
    requires
        strict_order(before),
        sorted_by(s, before),
        0 <= p <= s.len(),
        forall|q: int| 0 <= q < p ==> !before(e, #[trigger] s[q]),
        p < s.len() ==> before(e, s[p]),
    ensures
        sorted_by(s.insert(p, e), before),
{
    let t = s.insert(p, e);
    assert forall|a: int, b: int| 0 <= a < b < t.len() implies !before(#[trigger] t[b], #[trigger] t[a]) by {
        if a < p && b < p {
            assert(t[a] == s[a] && t[b] == s[b]);
        } else if a < p && b == p {
            assert(t[a] == s[a] && t[b] == e);
        } else if a < p {
            assert(t[a] == s[a] && t[b] == s[b - 1]);
        } else if a == p {
            assert(t[a] == e && t[b] == s[b - 1]);
            if before(s[b - 1], e) {
                assert(before(s[b - 1], s[p]));
                if b - 1 == p {
                    assert(!before(s[p], s[p]));
                } else {
                    assert(!before(s[b - 1], s[p]));
                }
            }
        } else {
            assert(t[a] == s[a - 1] && t[b] == s[b - 1]);
        }
    }
}

/// What comes strictly before no entry of a ranking still comes before
/// none once an entry that comes before one of them is inserted.
proof fn lemma_after_all_insert<A>(x: A, s: Seq<A>, e: A, p: int, before: spec_fn(A, A) -> bool)
    requires
        strict_order(before),
        0 <= p < s.len(),
        before(e, s[p]),
        after_all(x, s, before),
    ensures
        after_all(x, s.insert(p, e), before),
{
    let t = s.insert(p, e);
    assert forall|i: int| 0 <= i < t.len() implies !before(x, #[trigger] t[i]) by {
        if i < p {
            assert(t[i] == s[i]);
        } else if i == p {
            assert(t[i] == e);
            if before(x, e) {
                assert(before(x, s[p]));
            }
        } else {
            assert(t[i] == s[i - 1]);
        }
    }
}

proof fn lemma_insert_no_duplicates<A>(s: Seq<A>, p: int, e: A)
    requires
        s.no_duplicates(),
        !s.contains(e),
        0 <= p <= s.len(),
    ensures
        s.insert(p, e).no_duplicates(),
        forall|y: A| #[trigger] s.insert(p, e).contains(y) <==> s.contains(y) || y == e,
{
    let t = s.insert(p, e);
    assert forall|a: int, b: int| 0 <= a < t.len() && 0 <= b < t.len() && a != b implies t[a] != t[b] by {
        if t[a] == e && a != p {
            let k = if a < p { a } else { a - 1 };
            assert(s[k] == t[a]);
        }
        if t[b] == e && b != p {
            let k = if b < p { b } else { b - 1 };
            assert(s[k] == t[b]);
        }
        if a != p && b != p {
            let ka = if a < p { a } else { a - 1 };
            let kb = if b < p { b } else { b - 1 };
            assert(s[ka] == t[a] && s[kb] == t[b]);
        }
    }
    assert forall|y: A| #[trigger] t.contains(y) <==> s.contains(y) || y == e by {
        if t.contains(y) && y != e {
            let i = choose|i: int| 0 <= i < t.len() && t[i] == y;
            let k = if i < p { i } else { i - 1 };
            assert(s[k] == y);
        }
        if s.contains(y) {
            let k = choose|k: int| 0 <= k < s.len() && s[k] == y;
            let i = if k < p { k } else { k + 1 };
            assert(t[i] == y);
        }
        if y == e {
            assert(t[p] == y);
        }
    }
}

// ----------------------------------------------------------------------------
// Publishers
// ----------------------------------------------------------------------------

/// What `str::to_lowercase` (std) makes of `s`: its Unicode lower case.
pub uninterp spec fn lowercase(s: Seq<char>) -> Seq<char>;

/// `str::to_lowercase` (std); the result is named `lowercase`.
#[verifier::external_body]
fn to_lower(s: &str) -> (r: String)
    ensures
        r@ == lowercase(s@),
{
    s.to_lowercase()
}

/// The publisher a book counts for: its publisher's name, trimmed, unless
/// that is empty.
pub open spec fn publisher_key(b: Book) -> Option<Seq<char>> {
    match b.publisher {
        Some(p) => if trimmed(p@).len() > 0 {
            Some(trimmed(p@))
        } else {
            None
        },
        None => None,
    }
}

/// The publishers of the books, in the books' order, once per book that
/// counts for one.
pub open spec fn publisher_keys(books: Seq<Book>) -> Seq<Seq<char>>
    decreases books.len(),
{
    if books.len() == 0 {
        seq![]
    } else {
        let rest = publisher_keys(books.drop_last());
        match publisher_key(books.last()) {
            Some(k) => rest.push(k),
            None => rest,
        }
    }
}

/// How many times `k` occurs in `s`.
pub open spec fn occurrences(s: Seq<Seq<char>>, k: Seq<char>) -> nat
    decreases s.len(),
{
    if s.len() == 0 {
        0
    } else {
        occurrences(s.drop_last(), k) + if s.last() == k {
            1nat
        } else {
            0nat
        }
    }
}

/// `a` ranks strictly before `b`: more books, or as many and a lowercase
/// name that comes first.
pub open spec fn publisher_before(a: (Seq<char>, u32), b: (Seq<char>, u32)) -> bool {
    a.1 > b.1 || (a.1 == b.1 && text_less(lowercase(a.0), lowercase(b.0)))
}

/// The ranking order of publishers (see `publisher_before`).
pub open spec fn publisher_order() -> spec_fn((Seq<char>, u32), (Seq<char>, u32)) -> bool {
    |a: (Seq<char>, u32), b: (Seq<char>, u32)| publisher_before(a, b)
}

proof fn lemma_publisher_order()
    ensures
        strict_order(publisher_order()),
{
    let o = publisher_order();
    assert forall|x: (Seq<char>, u32)| !#[trigger] o(x, x) by {
        lemma_text_less_irreflexive(lowercase(x.0));
    }
    assert forall|x: (Seq<char>, u32), y: (Seq<char>, u32), z: (Seq<char>, u32)|
        #[trigger] o(x, y) && #[trigger] o(y, z) implies o(x, z) by {
        if x.1 == y.1 && y.1 == z.1 {
            lemma_text_less_transitive(lowercase(x.0), lowercase(y.0), lowercase(z.0));
        }
    }
}

/// The names of a ranking.
pub open spec fn names_of(r: Seq<(Seq<char>, u32)>) -> Seq<Seq<char>> {
    r.map_values(|e: (Seq<char>, u32)| e.0)
}

/// `r` is the top of the publishers of `keys` (the publisher of each book
/// that counts for one): at most five distinct publishers of `keys`, each
/// with its number of books, sorted by the ranking order, all of them when
/// there are fewer than five, and none left out that ranks strictly before
/// one kept. Publishers that tie on both the count and the lowercase name
/// may come in either order.
pub open spec fn top_publishers(r: Seq<(Seq<char>, u32)>, keys: Seq<Seq<char>>) -> bool {
    &&& r.len() <= TOP_FIVE
    &&& names_of(r).no_duplicates()
    &&& forall|i: int|
        0 <= i < r.len() ==> keys.contains(#[trigger] r[i].0) && r[i].1 == occurrences(keys, r[i].0)
    &&& sorted_by(r, publisher_order())
    &&& r.len() < TOP_FIVE ==> forall|n: Seq<char>| #[trigger] keys.contains(n) ==> names_of(r).contains(n)
    &&& forall|n: Seq<char>|
        #[trigger] keys.contains(n) && !names_of(r).contains(n) ==> after_all(
            (n, occurrences(keys, n) as u32),
            r,
            publisher_order(),
        )
}

proof fn lemma_occurrences_bound(s: Seq<Seq<char>>, k: Seq<char>)
    ensures
        occurrences(s, k) <= s.len(),
        occurrences(s, k) > 0 <==> s.contains(k),
    decreases s.len(),
{
    if s.len() > 0 {
        lemma_occurrences_bound(s.drop_last(), k);
        if s.drop_last().contains(k) {
            let j = choose|j: int| 0 <= j < s.drop_last().len() && s.drop_last()[j] == k;
            assert(s[j] == k);
        }
        if s.contains(k) && s.last() != k {
            let j = choose|j: int| 0 <= j < s.len() && s[j] == k;
            assert(s.drop_last()[j] == k);
        }
    }
}

proof fn lemma_publisher_keys_step(books: Seq<Book>, i: int)
    requires
        0 <= i < books.len(),
    ensures
        publisher_keys(books.take(i + 1)) == match publisher_key(books[i]) {
            Some(k) => publisher_keys(books.take(i)).push(k),
            None => publisher_keys(books.take(i)),
        },
        publisher_keys(books.take(i)).len() <= i,
    decreases i,
{
    assert(books.take(i + 1).drop_last() =~= books.take(i));
    if i > 0 {
        lemma_publisher_keys_step(books, i - 1);
    }
}

/// The publisher a book counts for (see `publisher_key`).
fn book_publisher(b: &Book) -> (r: Option<String>)
    ensures
        match r {
            Some(s) => publisher_key(*b) == Some(s@),
            None => publisher_key(*b) is None,
        },
{
    match &b.publisher {
        Some(p) => {
            let t = trim_text(p.as_str());
            if t.as_str().unicode_len() > 0 {
                Some(t)
            } else {
                None
            }
        },
        None => None,
    }
}

/// The publisher of each book, computed on rayon's thread pool (rayon's
/// `par_iter`, `map` and `collect`). The contract claims that the results
/// come in the books' order, as rayon documents for indexed iterators
/// collected into a `Vec`, and that each is what `book_publisher` gives.
#[verifier::external_body]
fn publishers_of(books: &[Book]) -> (r: Vec<Option<String>>)
    ensures
        r@.len() == books@.len(),
        forall|i: int|
            0 <= i < books@.len() ==> match #[trigger] r@[i] {
                Some(s) => publisher_key(books@[i]) == Some(s@),
                None => publisher_key(books@[i]) is None,
            },
{
    books.par_iter().map(|b| book_publisher(b)).collect()
}

/// The view of a ranking entry.
pub open spec fn entry_view(e: (String, u32)) -> (Seq<char>, u32) {
    (e.0@, e.1)
}

/// The views of a ranking.
pub open spec fn entries_view(r: Seq<(String, u32)>) -> Seq<(Seq<char>, u32)> {
    r.map_values(|e: (String, u32)| entry_view(e))
}

/// Whether `a` ranks strictly before `b` (see `publisher_before`).
fn publisher_is_before(a: &(String, u32), b: &(String, u32)) -> (r: bool)
    ensures
        r == publisher_before(entry_view(*a), entry_view(*b)),
{
    if a.1 != b.1 {
        a.1 > b.1
    } else {
        let la = to_lower(a.0.as_str());
        let lb = to_lower(b.0.as_str());
        text_is_less(la.as_str(), lb.as_str())
    }
}

/// The five publishers with the most books, each with its number of books,
/// first to last (see `top_publishers`). A book counts for the publisher it
/// names, trimmed, unless that is empty. There must be fewer than 2^32
/// books, so that no count overflows.
pub fn top_publishers_by_book_count(books: &[Book]) -> (r: Vec<(String, u32)>)
    requires
        books@.len() <= u32::MAX,
    ensures
        top_publishers(entries_view(r@), publisher_keys(books@)),
{
    let keys = publishers_of(books);
    let ghost all = publisher_keys(books@);
    // Counting: the names in order of first appearance, and their counts.
    let mut names: Vec<String> = Vec::new();
    let mut counts: StringHashMap<u32> = StringHashMap::new();
    let mut i: usize = 0;
    while i < keys.len()
        invariant
            keys@.len() == books@.len(),
            books@.len() <= u32::MAX,
            i <= keys@.len(),
            forall|q: int|
                0 <= q < books@.len() ==> match #[trigger] keys@[q] {
                    Some(s) => publisher_key(books@[q]) == Some(s@),
                    None => publisher_key(books@[q]) is None,
                },
            publisher_keys(books@.take(i as int)).len() <= i,
            names@.map_values(|s: String| s@).no_duplicates(),
            forall|n: Seq<char>|
                names@.map_values(|s: String| s@).contains(n) <==> #[trigger] publisher_keys(
                    books@.take(i as int),
                ).contains(n),
            forall|n: Seq<char>|
                #[trigger] counts@.contains_key(n) <==> publisher_keys(
                    books@.take(i as int),
                ).contains(n),
            forall|n: Seq<char>|
                #[trigger] counts@.contains_key(n) ==> counts@[n] == occurrences(
                    publisher_keys(books@.take(i as int)),
                    n,
                ),
        decreases keys@.len() - i,
    {
        let ghost before = publisher_keys(books@.take(i as int));
        let ghost nv = names@.map_values(|s: String| s@);
        proof {
            lemma_publisher_keys_step(books@, i as int);
        }
        match &keys[i] {
            Some(k) => {
                let ghost after = before.push(k@);
                assert(publisher_keys(books@.take(i + 1)) == after);
                assert(after.drop_last() =~= before);
                match counts.get(k.as_str()) {
                    Some(c) => {
                        let c = *c;
                        proof {
                            lemma_occurrences_bound(before, k@);
                        }
                        counts.insert(k.clone(), c + 1);
                        assert forall|n: Seq<char>| #[trigger] after.contains(n) <==> before.contains(n) || n == k@ by {
                            if after.contains(n) && n != k@ {
                                let j = choose|j: int| 0 <= j < after.len() && after[j] == n;
                                assert(before[j] == n);
                            }
                            if before.contains(n) {
                                let j = choose|j: int| 0 <= j < before.len() && before[j] == n;
                                assert(after[j] == n);
                            }
                            if n == k@ {
                                assert(after[after.len() - 1] == n);
                            }
                        }
                    },
                    None => {
                        let ks = k.clone();
                        names.push(ks);
                        counts.insert(k.clone(), 1);
                        assert(names@.map_values(|s: String| s@) =~= nv.push(k@));
                        assert forall|n: Seq<char>| #[trigger] after.contains(n) <==> before.contains(n) || n == k@ by {
                            if after.contains(n) && n != k@ {
                                let j = choose|j: int| 0 <= j < after.len() && after[j] == n;
                                assert(before[j] == n);
                            }
                            if before.contains(n) {
                                let j = choose|j: int| 0 <= j < before.len() && before[j] == n;
                                assert(after[j] == n);
                            }
                            if n == k@ {
                                assert(after[after.len() - 1] == n);
                            }
                        }
                        assert forall|n: Seq<char>| #[trigger] nv.push(k@).contains(n) <==> nv.contains(n) || n == k@ by {
                            if nv.push(k@).contains(n) && n != k@ {
                                let j = choose|j: int| 0 <= j < nv.push(k@).len() && nv.push(k@)[j] == n;
                                assert(nv[j] == n);
                            }
                            if nv.contains(n) {
                                let j = choose|j: int| 0 <= j < nv.len() && nv[j] == n;
                                assert(nv.push(k@)[j] == n);
                            }
                            if n == k@ {
                                assert(nv.push(k@)[nv.len() as int] == n);
                            }
                        }
                        proof {
                            lemma_occurrences_bound(before, k@);
                        }
                    },
                }
            },
            None => {
                assert(publisher_keys(books@.take(i + 1)) == before);
            },
        }
        i = i + 1;
    }
    assert(books@.take(i as int) =~= books@);
    let ghost nv = names@.map_values(|s: String| s@);
    // Ranking: insert each publisher into the top, which never holds more
    // than five.
    let mut top: Vec<(String, u32)> = Vec::new();
    proof {
        lemma_publisher_order();
    }
    let mut j: usize = 0;
    while j < names.len()
        invariant
            j <= names@.len(),
            nv == names@.map_values(|s: String| s@),
            nv.no_duplicates(),
            all == publisher_keys(books@),
            strict_order(publisher_order()),
            forall|n: Seq<char>| #[trigger] nv.contains(n) <==> all.contains(n),
            forall|n: Seq<char>| #[trigger] counts@.contains_key(n) <==> all.contains(n),
            forall|n: Seq<char>|
                #[trigger] counts@.contains_key(n) ==> counts@[n] == occurrences(all, n),
            all.len() <= u32::MAX,
            top@.len() <= TOP_FIVE,
            names_of(entries_view(top@)).no_duplicates(),
            forall|t: int|
                0 <= t < top@.len() ==> nv.take(j as int).contains(#[trigger] top@[t].0@)
                    && top@[t].1 == occurrences(all, top@[t].0@),
            sorted_by(entries_view(top@), publisher_order()),
            top@.len() < TOP_FIVE ==> forall|q: int|
                0 <= q < j ==> names_of(entries_view(top@)).contains(#[trigger] nv[q]),
            forall|q: int|
                0 <= q < j && !names_of(entries_view(top@)).contains(#[trigger] nv[q]) ==> after_all(
                    (nv[q], occurrences(all, nv[q]) as u32),
                    entries_view(top@),
                    publisher_order(),
                ),
        decreases names@.len() - j,
    {
        let ghost tv = entries_view(top@);
        let ghost n = nv[j as int];
        assert(nv.contains(n));
        let c: u32 = match counts.get(names[j].as_str()) {
            Some(c) => *c,
            None => 0,
        };
        proof {
            lemma_occurrences_bound(all, n);
        }
        assert(c == occurrences(all, n));
        let entry = (names[j].clone(), c);
        let ghost e = entry_view(entry);
        assert(e == (n, occurrences(all, n) as u32));
        // `n` is new to the top.
        assert(!names_of(tv).contains(n)) by {
            if names_of(tv).contains(n) {
                let t = choose|t: int| 0 <= t < names_of(tv).len() && names_of(tv)[t] == n;
                assert(nv.take(j as int).contains(top@[t].0@));
                let q = choose|q: int| 0 <= q < j && nv.take(j as int)[q] == top@[t].0@;
                assert(nv[q] == nv[j as int]);
            }
        }
        let mut p: usize = 0;
        while p < top.len()
            invariant
                p <= top@.len(),
                tv == entries_view(top@),
                e == entry_view(entry),
                forall|q: int| 0 <= q < p ==> !publisher_before(e, #[trigger] tv[q]),
            ensures
                p <= top@.len(),
                forall|q: int| 0 <= q < p ==> !publisher_before(e, #[trigger] tv[q]),
                p < top@.len() ==> publisher_before(e, tv[p as int]),
            decreases top@.len() - p,
        {
            assert(tv[p as int] == entry_view(top@[p as int]));
            if publisher_is_before(&entry, &top[p]) {
                break;
            }
            p = p + 1;
        }
        let ghost jn = j + 1;
        assert forall|q: int| 0 <= q < j implies nv.take(jn).contains(#[trigger] nv.take(j as int)[q]) by {
            assert(nv.take(jn)[q] == nv.take(j as int)[q]);
        }
        assert(nv.take(jn)[j as int] == n);
        if p < TOP_FIVE {
            proof {
                lemma_insert_sorted(tv, e, p as int, publisher_order());
                lemma_insert_no_duplicates(names_of(tv), p as int, n);
            }
            top.insert(p, entry);
            let ghost t1 = entries_view(top@);
            assert(t1 =~= tv.insert(p as int, e));
            assert(names_of(t1) =~= names_of(tv).insert(p as int, n));
            if top.len() > TOP_FIVE {
                let ghost dropped = t1[TOP_FIVE as int];
                assert(dropped == tv[4]);
                top.pop();
                assert(entries_view(top@) =~= t1.drop_last());
                assert(names_of(entries_view(top@)) =~= names_of(t1).drop_last());
                assert forall|q: int|
                    0 <= q < jn && !names_of(entries_view(top@)).contains(#[trigger] nv[q]) implies after_all(
                        (nv[q], occurrences(all, nv[q]) as u32),
                        entries_view(top@),
                        publisher_order(),
                    ) by {
                    let x = (nv[q], occurrences(all, nv[q]) as u32);
                    if nv[q] == dropped.0 {
                        assert(x == dropped);
                        assert forall|t: int| 0 <= t < entries_view(top@).len() implies !publisher_order()(x, #[trigger] entries_view(top@)[t]) by {
                            assert(entries_view(top@)[t] == t1[t]);
                        }
                    } else {
                        if names_of(t1).contains(nv[q]) {
                            let i = choose|i: int| 0 <= i < names_of(t1).len() && names_of(t1)[i] == nv[q];
                            if i < TOP_FIVE {
                                assert(names_of(entries_view(top@))[i] == nv[q]);
                            } else {
                                assert(names_of(t1)[i] == dropped.0);
                            }
                        }
                        assert(!names_of(tv).contains(nv[q]));
                        assert(q < j);
                        lemma_after_all_insert(x, tv, e, p as int, publisher_order());
                        assert forall|t: int| 0 <= t < entries_view(top@).len() implies !publisher_order()(x, #[trigger] entries_view(top@)[t]) by {
                            assert(entries_view(top@)[t] == t1[t]);
                        }
                    }
                }
            } else {
                assert forall|q: int| 0 <= q < jn implies names_of(entries_view(top@)).contains(#[trigger] nv[q]) by {
                    if q < j {
                        assert(names_of(tv).contains(nv[q]));
                    }
                }
            }
        } else {
            assert(tv.len() == TOP_FIVE);
            assert(after_all(e, tv, publisher_order()));
        }
        j = j + 1;
    }
    assert(nv.take(j as int) =~= nv);
    top
}

// ----------------------------------------------------------------------------
// Authors
// ----------------------------------------------------------------------------

/// The names of the authors of the dataset, by author id.
pub struct AuthorNames {
    names: StringHashMap<String>,
}

impl View for AuthorNames {
    type V = Map<Seq<char>, Seq<char>>;

    closed spec fn view(&self) -> Map<Seq<char>, Seq<char>> {
        self.names@.map_values(|s: String| s@)
    }
}

impl AuthorNames {
    /// No author known yet.
    pub fn new() -> (a: Self)
        ensures
            a@ == Map::<Seq<char>, Seq<char>>::empty(),
    {
        let a = AuthorNames { names: StringHashMap::new() };
        assert(a@ =~= Map::<Seq<char>, Seq<char>>::empty());
        a
    }

    /// Records the name of the author `id`, replacing any earlier one.
    pub fn insert(&mut self, id: String, name: String)
        ensures
            final(self)@ == old(self)@.insert(id@, name@),
    {
        let ghost before = self@;
        self.names.insert(id, name);
        assert(self@ =~= before.insert(id@, name@));
    }

    /// The name of the author `id`, if known.
    pub fn get(&self, id: &str) -> (r: Option<&String>)
        ensures
            r is Some <==> self@.contains_key(id@),
            r matches Some(n) ==> n@ == self@[id@],
    {
        self.names.get(id)
    }
}

/// What a book gives the ranking of authors: the name of its first author,
/// its title and its number of reviews, when it has a review count that
/// reads as a `u32` (as `str::parse` reads it), lists an author, and that
/// author's name is known.
pub open spec fn author_entry(b: Book, names: Map<Seq<char>, Seq<char>>) -> Option<
    (Seq<char>, Seq<char>, u32),
> {
    match b.ratings_count {
        None => None,
        Some(rc) => if b.authors@.len() == 0 {
            None
        } else {
            let id = b.authors@[0].author_id@;
            match parse_unsigned(rc@, u32::MAX as nat) {
                None => None,
                Some(count) => if names.contains_key(id) {
                    Some((names[id], b.title@, count as u32))
                } else {
                    None
                },
            }
        },
    }
}

/// The entries the books give, in the books' order.
pub open spec fn author_entries(books: Seq<Book>, names: Map<Seq<char>, Seq<char>>) -> Seq<
    (Seq<char>, Seq<char>, u32),
>
    decreases books.len(),
{
    if books.len() == 0 {
        seq![]
    } else {
        let rest = author_entries(books.drop_last(), names);
        match author_entry(books.last(), names) {
            Some(e) => rest.push(e),
            None => rest,
        }
    }
}

/// The books of author `name` in `es`, as `(title, reviews)`, in order.
pub open spec fn group_of(es: Seq<(Seq<char>, Seq<char>, u32)>, name: Seq<char>) -> Seq<
    (Seq<char>, u32),
>
    decreases es.len(),
{
    if es.len() == 0 {
        seq![]
    } else {
        let rest = group_of(es.drop_last(), name);
        if es.last().0 == name {
            rest.push((es.last().1, es.last().2))
        } else {
            rest
        }
    }
}

/// The number of reviews of a list of books.
pub open spec fn review_total(g: Seq<(Seq<char>, u32)>) -> nat
    decreases g.len(),
{
    if g.len() == 0 {
        0
    } else {
        review_total(g.drop_last()) + g.last().1 as nat
    }
}

/// `x` inserted into `s` just before the first book with fewer reviews.
pub open spec fn insert_desc(s: Seq<(Seq<char>, u32)>, x: (Seq<char>, u32)) -> Seq<
    (Seq<char>, u32),
>
    decreases s.len(),
{
    if s.len() == 0 {
        seq![x]
    } else if s[0].1 < x.1 {
        seq![x] + s
    } else {
        seq![s[0]] + insert_desc(s.drop_first(), x)
    }
}

/// The books sorted by reviews, most first, books with as many reviews
/// keeping their order (a stable sort).
pub open spec fn stable_desc(g: Seq<(Seq<char>, u32)>) -> Seq<(Seq<char>, u32)>
    decreases g.len(),
{
    if g.len() == 0 {
        seq![]
    } else {
        insert_desc(stable_desc(g.drop_last()), g.last())
    }
}

/// The first `n` entries of `s`, or all of them when there are fewer.
pub open spec fn first_n<A>(s: Seq<A>, n: nat) -> Seq<A> {
    if s.len() <= n {
        s
    } else {
        s.take(n as int)
    }
}

/// The names of the entries.
pub open spec fn entry_names(es: Seq<(Seq<char>, Seq<char>, u32)>) -> Seq<Seq<char>> {
    es.map_values(|e: (Seq<char>, Seq<char>, u32)| e.0)
}

/// The ranking order of authors: more reviews.
pub open spec fn author_order() -> spec_fn((Seq<char>, u32), (Seq<char>, u32)) -> bool {
    |a: (Seq<char>, u32), b: (Seq<char>, u32)| a.1 > b.1
}

/// The name and total of each entry of an authors' ranking.
pub open spec fn totals_of(r: Seq<(Seq<char>, u32, Seq<(Seq<char>, u32)>)>) -> Seq<
    (Seq<char>, u32),
> {
    r.map_values(|e: (Seq<char>, u32, Seq<(Seq<char>, u32)>)| (e.0, e.1))
}

/// `r` is the top of the authors of the entries `es`: at most five
/// distinct authors, each with its number of reviews and its three most
/// reviewed books (ties in the order of the books), sorted by reviews, all
/// of them when there are fewer than five, and none left out with more
/// reviews than one kept. Authors with as many reviews may come in any
/// order.
pub open spec fn top_authors(
    r: Seq<(Seq<char>, u32, Seq<(Seq<char>, u32)>)>,
    es: Seq<(Seq<char>, Seq<char>, u32)>,
) -> bool {
    &&& r.len() <= TOP_FIVE
    &&& names_of(totals_of(r)).no_duplicates()
    &&& forall|i: int|
        0 <= i < r.len() ==> {
            &&& entry_names(es).contains(#[trigger] r[i].0)
            &&& r[i].1 == review_total(group_of(es, r[i].0))
            &&& r[i].2 == first_n(stable_desc(group_of(es, r[i].0)), TOP_BOOKS_COUNT as nat)
        }
    &&& sorted_by(totals_of(r), author_order())
    &&& r.len() < TOP_FIVE ==> forall|n: Seq<char>| #[trigger] entry_names(es).contains(n) ==> names_of(totals_of(r)).contains(n)
    &&& forall|n: Seq<char>|
        #[trigger] entry_names(es).contains(n) && !names_of(totals_of(r)).contains(n) ==> after_all(
            (n, review_total(group_of(es, n)) as u32),
            totals_of(r),
            author_order(),
        )
}

proof fn lemma_author_order()
    ensures
        strict_order(author_order()),
{
}

proof fn lemma_author_entries_step(books: Seq<Book>, names: Map<Seq<char>, Seq<char>>, i: int)
    requires
        0 <= i < books.len(),
    ensures
        author_entries(books.take(i + 1), names) == match author_entry(books[i], names) {
            Some(e) => author_entries(books.take(i), names).push(e),
            None => author_entries(books.take(i), names),
        },
{
    assert(books.take(i + 1).drop_last() =~= books.take(i));
}

proof fn lemma_group_absent(es: Seq<(Seq<char>, Seq<char>, u32)>, n: Seq<char>)
    requires
        !entry_names(es).contains(n),
    ensures
        group_of(es, n) == Seq::<(Seq<char>, u32)>::empty(),
    decreases es.len(),
{
    if es.len() > 0 {
        assert(entry_names(es)[es.len() - 1] == es.last().0);
        assert(!entry_names(es.drop_last()).contains(n)) by {
            if entry_names(es.drop_last()).contains(n) {
                let k = choose|k: int|
                    0 <= k < entry_names(es.drop_last()).len() && entry_names(es.drop_last())[k] == n;
                assert(entry_names(es)[k] == n);
            }
        }
        lemma_group_absent(es.drop_last(), n);
    }
}

proof fn lemma_total_prefix(g: Seq<(Seq<char>, u32)>, k: int)
    requires
        0 <= k <= g.len(),
    ensures
        review_total(g.take(k)) <= review_total(g),
    decreases g.len() - k,
{
    if k == g.len() {
        assert(g.take(k) =~= g);
    } else {
        lemma_total_prefix(g, k + 1);
        assert(g.take(k + 1).drop_last() =~= g.take(k));
    }
}

proof fn lemma_insert_desc_at(s: Seq<(Seq<char>, u32)>, x: (Seq<char>, u32), p: int)
    requires
        0 <= p <= s.len(),
        forall|q: int| 0 <= q < p ==> (#[trigger] s[q]).1 >= x.1,
        p < s.len() ==> s[p].1 < x.1,
    ensures
        insert_desc(s, x) == s.insert(p, x),
    decreases s.len(),
{
    if s.len() == 0 {
        assert(s.insert(p, x) =~= seq![x]);
    } else if p == 0 {
        assert(s.insert(p, x) =~= seq![x] + s);
    } else {
        let t = s.drop_first();
        assert forall|q: int| 0 <= q < p - 1 implies (#[trigger] t[q]).1 >= x.1 by {
            assert(t[q] == s[q + 1]);
        }
        if p - 1 < t.len() {
            assert(t[p - 1] == s[p]);
        }
        lemma_insert_desc_at(t, x, p - 1);
        assert(s.insert(p, x) =~= seq![s[0]] + t.insert(p - 1, x));
    }
}

/// The ranking entry of a book (see `author_entry`).
fn book_author_entry(b: &Book, names: &AuthorNames) -> (r: Option<(String, String, u32)>)
    ensures
        match r {
            Some(e) => author_entry(*b, names@) == Some((e.0@, e.1@, e.2)),
            None => author_entry(*b, names@) is None,
        },
{
    let rc = match &b.ratings_count {
        Some(rc) => rc,
        None => return None,
    };
    let id = match b.author_id() {
        Some(id) => id,
        None => return None,
    };
    let count = match parse_unsigned_text(rc.as_str(), 0xffff_ffff) {
        Some(c) => c,
        None => return None,
    };
    match names.get(id.as_str()) {
        Some(name) => Some((name.clone(), b.title.clone(), count as u32)),
        None => None,
    }
}

/// The ranking entry of each book, computed on rayon's thread pool
/// (rayon's `par_iter`, `map` and `collect`). The contract claims that the
/// results come in the books' order, as rayon documents for indexed
/// iterators collected into a `Vec`, and that each is what
/// `book_author_entry` gives.
#[verifier::external_body]
fn author_entries_of(books: &[Book], names: &AuthorNames) -> (r: Vec<Option<(String, String, u32)>>)
    ensures
        r@.len() == books@.len(),
        forall|i: int|
            0 <= i < books@.len() ==> match #[trigger] r@[i] {
                Some(e) => author_entry(books@[i], names@) == Some((e.0@, e.1@, e.2)),
                None => author_entry(books@[i], names@) is None,
            },
{
    books.par_iter().map(|b| book_author_entry(b, names)).collect()
}

/// The view of an entry of the authors' ranking.
pub open spec fn author_view(e: (String, u32, Vec<(String, u32)>)) -> (
    Seq<char>,
    u32,
    Seq<(Seq<char>, u32)>,
) {
    (e.0@, e.1, entries_view(e.2@))
}

/// The views of the authors' ranking.
pub open spec fn authors_view(r: Seq<(String, u32, Vec<(String, u32)>)>) -> Seq<
    (Seq<char>, u32, Seq<(Seq<char>, u32)>),
> {
    r.map_values(|e: (String, u32, Vec<(String, u32)>)| author_view(e))
}

/// The number of reviews of a list of books.
fn total_reviews(g: &Vec<(String, u32)>) -> (t: u32)
    requires
        review_total(entries_view(g@)) <= u32::MAX,
    ensures
        t == review_total(entries_view(g@)),
{
    let ghost gv = entries_view(g@);
    let mut t: u32 = 0;
    let mut k: usize = 0;
    while k < g.len()
        invariant
            k <= g@.len(),
            gv == entries_view(g@),
            review_total(gv) <= u32::MAX,
            t == review_total(gv.take(k as int)),
        decreases g@.len() - k,
    {
        proof {
            lemma_total_prefix(gv, k + 1);
            assert(gv.take(k + 1).drop_last() =~= gv.take(k as int));
            assert(gv[k as int] == entry_view(g@[k as int]));
        }
        t = t + g[k].1;
        k = k + 1;
    }
    assert(gv.take(k as int) =~= gv);
    t
}

/// The three most reviewed books of a list, most reviewed first, books
/// with as many reviews in their order in the list.
fn most_reviewed(g: &Vec<(String, u32)>) -> (r: Vec<(String, u32)>)
    ensures
        entries_view(r@) == first_n(stable_desc(entries_view(g@)), TOP_BOOKS_COUNT as nat),
{
    let ghost gv = entries_view(g@);
    let mut sorted: Vec<(String, u32)> = Vec::new();
    let mut k: usize = 0;
    assert(gv.take(0) =~= Seq::<(Seq<char>, u32)>::empty());
    assert(entries_view(sorted@) =~= Seq::<(Seq<char>, u32)>::empty());
    while k < g.len()
        invariant
            k <= g@.len(),
            gv == entries_view(g@),
            entries_view(sorted@) == stable_desc(gv.take(k as int)),
        decreases g@.len() - k,
    {
        let ghost sv = entries_view(sorted@);
        let ghost x = gv[k as int];
        assert(x == entry_view(g@[k as int]));
        let mut p: usize = 0;
        while p < sorted.len()
            invariant
                p <= sorted@.len(),
                sv == entries_view(sorted@),
                x == entry_view(g@[k as int]),
                k < g@.len(),
                forall|q: int| 0 <= q < p ==> (#[trigger] sv[q]).1 >= x.1,
            ensures
                p <= sorted@.len(),
                forall|q: int| 0 <= q < p ==> (#[trigger] sv[q]).1 >= x.1,
                p < sorted@.len() ==> sv[p as int].1 < x.1,
            decreases sorted@.len() - p,
        {
            assert(sv[p as int] == entry_view(sorted@[p as int]));
            if sorted[p].1 < g[k].1 {
                break;
            }
            p = p + 1;
        }
        proof {
            lemma_insert_desc_at(sv, x, p as int);
            assert(gv.take(k + 1).drop_last() =~= gv.take(k as int));
        }
        sorted.insert(p, (g[k].0.clone(), g[k].1));
        assert(entries_view(sorted@) =~= sv.insert(p as int, x));
        k = k + 1;
    }
    assert(gv.take(k as int) =~= gv);
    let ghost full = entries_view(sorted@);
    sorted.truncate(TOP_BOOKS_COUNT);
    assert(entries_view(sorted@) =~= first_n(full, TOP_BOOKS_COUNT as nat));
    sorted
}

/// The authors of the books' entries (see `author_entry`), in order of
/// first appearance, each with its books in the books' order.
fn group_by_author(books: &[Book], authors: &AuthorNames) -> (r: (Vec<String>, Vec<Vec<(String, u32)>>))
    ensures
        r.0@.map_values(|s: String| s@).no_duplicates(),
        forall|n: Seq<char>|
            r.0@.map_values(|s: String| s@).contains(n) <==> #[trigger] entry_names(
                author_entries(books@, authors@),
            ).contains(n),
        r.1@.len() == r.0@.len(),
        forall|g: int|
            0 <= g < r.1@.len() ==> entries_view(#[trigger] r.1@[g]@) == group_of(
                author_entries(books@, authors@),
                r.0@[g]@,
            ),
{
    let entries = author_entries_of(books, authors);
    let ghost all = author_entries(books@, authors@);
    // Grouping: the authors in order of first appearance, each with its books.
    let mut seen: Vec<String> = Vec::new();
    let mut index: StringHashMap<usize> = StringHashMap::new();
    let mut groups: Vec<Vec<(String, u32)>> = Vec::new();
    let mut i: usize = 0;
    while i < entries.len()
        invariant
            entries@.len() == books@.len(),
            i <= entries@.len(),
            forall|q: int|
                0 <= q < books@.len() ==> match #[trigger] entries@[q] {
                    Some(e) => author_entry(books@[q], authors@) == Some((e.0@, e.1@, e.2)),
                    None => author_entry(books@[q], authors@) is None,
                },
            seen@.map_values(|s: String| s@).no_duplicates(),
            forall|n: Seq<char>|
                seen@.map_values(|s: String| s@).contains(n) <==> #[trigger] entry_names(
                    author_entries(books@.take(i as int), authors@),
                ).contains(n),
            forall|n: Seq<char>|
                #[trigger] index@.contains_key(n) <==> seen@.map_values(|s: String| s@).contains(n),
            forall|n: Seq<char>|
                #[trigger] index@.contains_key(n) ==> index@[n] < seen@.len() && seen@[index@[n] as int]@ == n,
            groups@.len() == seen@.len(),
            forall|g: int|
                0 <= g < groups@.len() ==> entries_view(#[trigger] groups@[g]@) == group_of(
                    author_entries(books@.take(i as int), authors@),
                    seen@[g]@,
                ),
        decreases entries@.len() - i,
    {
        let ghost before = author_entries(books@.take(i as int), authors@);
        let ghost sv = seen@.map_values(|s: String| s@);
        proof {
            lemma_author_entries_step(books@, authors@, i as int);
        }
        match &entries[i] {
            Some(e) => {
                let ghost x = (e.0@, e.1@, e.2);
                let ghost after = before.push(x);
                assert(author_entries(books@.take(i + 1), authors@) == after);
                assert(after.drop_last() =~= before);
                assert(entry_names(after) =~= entry_names(before).push(x.0));
                assert forall|n: Seq<char>|
                    #[trigger] entry_names(before).push(x.0).contains(n) <==> entry_names(before).contains(n) || n == x.0 by {
                    let a = entry_names(before);
                    if a.push(x.0).contains(n) && n != x.0 {
                        let k = choose|k: int| 0 <= k < a.push(x.0).len() && a.push(x.0)[k] == n;
                        assert(a[k] == n);
                    }
                    if a.contains(n) {
                        let k = choose|k: int| 0 <= k < a.len() && a[k] == n;
                        assert(a.push(x.0)[k] == n);
                    }
                    if n == x.0 {
                        assert(a.push(x.0)[a.len() as int] == n);
                    }
                }
                match index.get(e.0.as_str()) {
                    Some(gi) => {
                        let g = *gi;
                        let ghost old_groups = groups@;
                        groups[g].push((e.1.clone(), e.2));
                        assert forall|k: int| 0 <= k < groups@.len() implies entries_view(#[trigger] groups@[k]@) == group_of(after, seen@[k]@) by {
                            if k == g {
                                assert(entries_view(groups@[k]@) =~= entries_view(old_groups[k]@).push((x.1, x.2)));
                            } else {
                                assert(groups@[k] == old_groups[k]);
                                assert(sv[k] == seen@[k]@ && sv[g as int] == seen@[g as int]@);
                            }
                        }
                    },
                    None => {
                        proof {
                            lemma_group_absent(before, x.0);
                        }
                        let ghost old_groups = groups@;
                        index.insert(e.0.clone(), seen.len());
                        seen.push(e.0.clone());
                        let mut ng: Vec<(String, u32)> = Vec::new();
                        ng.push((e.1.clone(), e.2));
                        groups.push(ng);
                        assert(seen@.map_values(|s: String| s@) =~= sv.push(x.0));
                        assert forall|n: Seq<char>| #[trigger] sv.push(x.0).contains(n) <==> sv.contains(n) || n == x.0 by {
                            if sv.push(x.0).contains(n) && n != x.0 {
                                let k = choose|k: int| 0 <= k < sv.push(x.0).len() && sv.push(x.0)[k] == n;
                                assert(sv[k] == n);
                            }
                            if sv.contains(n) {
                                let k = choose|k: int| 0 <= k < sv.len() && sv[k] == n;
                                assert(sv.push(x.0)[k] == n);
                            }
                            if n == x.0 {
                                assert(sv.push(x.0)[sv.len() as int] == n);
                            }
                        }
                        assert forall|k: int| 0 <= k < groups@.len() implies entries_view(#[trigger] groups@[k]@) == group_of(after, seen@[k]@) by {
                            if k < old_groups.len() {
                                assert(groups@[k] == old_groups[k]);
                                assert(sv[k] == seen@[k]@);
                                assert(sv.contains(seen@[k]@));
                            } else {
                                assert(entries_view(groups@[k]@) =~= seq![(x.1, x.2)]);
                                assert(group_of(after, x.0) =~= Seq::<(Seq<char>, u32)>::empty().push((x.1, x.2)));
                            }
                        }
                    },
                }
            },
            None => {
                assert(author_entries(books@.take(i + 1), authors@) == before);
            },
        }
        i = i + 1;
    }
    assert(books@.take(i as int) =~= books@);
    (seen, groups)
}

/// The five authors with the most reviews, each with its number of
/// reviews and its three most reviewed books (see `top_authors`). A book
/// counts when it has a review count that reads as a `u32`, lists an author
/// and that author's name is known. No author's number of reviews may
/// exceed `u32::MAX`.
pub fn top_authors_by_reviews(books: &[Book], authors: &AuthorNames) -> (r: Vec<
    (String, u32, Vec<(String, u32)>),
>)
    requires
        forall|n: Seq<char>|
            review_total(#[trigger] group_of(author_entries(books@, authors@), n)) <= u32::MAX,
    ensures
        top_authors(authors_view(r@), author_entries(books@, authors@)),
{
    let ghost all = author_entries(books@, authors@);
    let (seen, groups) = group_by_author(books, authors);
    let ghost nv = seen@.map_values(|s: String| s@);
    // Ranking: insert each author into the top, which never holds more
    // than five.
    let mut top: Vec<(String, u32, Vec<(String, u32)>)> = Vec::new();
    proof {
        lemma_author_order();
    }
    let mut j: usize = 0;
    while j < seen.len()
        invariant
            j <= seen@.len(),
            nv == seen@.map_values(|s: String| s@),
            nv.no_duplicates(),
            all == author_entries(books@, authors@),
            strict_order(author_order()),
            forall|n: Seq<char>| review_total(#[trigger] group_of(all, n)) <= u32::MAX,
            forall|n: Seq<char>| #[trigger] nv.contains(n) <==> entry_names(all).contains(n),
            groups@.len() == seen@.len(),
            forall|g: int|
                0 <= g < groups@.len() ==> entries_view(#[trigger] groups@[g]@) == group_of(all, seen@[g]@),
            top@.len() <= TOP_FIVE,
            names_of(totals_of(authors_view(top@))).no_duplicates(),
            forall|t: int|
                0 <= t < top@.len() ==> {
                    &&& nv.take(j as int).contains(#[trigger] authors_view(top@)[t].0)
                    &&& authors_view(top@)[t].1 == review_total(group_of(all, authors_view(top@)[t].0))
                    &&& authors_view(top@)[t].2 == first_n(
                        stable_desc(group_of(all, authors_view(top@)[t].0)),
                        TOP_BOOKS_COUNT as nat,
                    )
                },
            sorted_by(totals_of(authors_view(top@)), author_order()),
            top@.len() < TOP_FIVE ==> forall|q: int|
                0 <= q < j ==> names_of(totals_of(authors_view(top@))).contains(#[trigger] nv[q]),
            forall|q: int|
                0 <= q < j && !names_of(totals_of(authors_view(top@))).contains(#[trigger] nv[q])
                    ==> after_all(
                    (nv[q], review_total(group_of(all, nv[q])) as u32),
                    totals_of(authors_view(top@)),
                    author_order(),
                ),
        decreases seen@.len() - j,
    {
        let ghost av = authors_view(top@);
        let ghost tv = totals_of(av);
        let ghost n = nv[j as int];
        assert(nv.contains(n));
        assert(seen@[j as int]@ == n);
        let total = total_reviews(&groups[j]);
        let best = most_reviewed(&groups[j]);
        let entry = (seen[j].clone(), total, best);
        let ghost e = (n, total);
        assert(author_view(entry) == (n, review_total(group_of(all, n)) as u32, first_n(
            stable_desc(group_of(all, n)),
            TOP_BOOKS_COUNT as nat,
        )));
        assert(!names_of(tv).contains(n)) by {
            if names_of(tv).contains(n) {
                let t = choose|t: int| 0 <= t < names_of(tv).len() && names_of(tv)[t] == n;
                assert(nv.take(j as int).contains(av[t].0));
                let q = choose|q: int| 0 <= q < j && nv.take(j as int)[q] == av[t].0;
                assert(nv[q] == nv[j as int]);
            }
        }
        let mut p: usize = 0;
        while p < top.len()
            invariant
                p <= top@.len(),
                tv == totals_of(authors_view(top@)),
                e.1 == total,
                forall|q: int| 0 <= q < p ==> !author_order()(e, #[trigger] tv[q]),
            ensures
                p <= top@.len(),
                forall|q: int| 0 <= q < p ==> !author_order()(e, #[trigger] tv[q]),
                p < top@.len() ==> author_order()(e, tv[p as int]),
            decreases top@.len() - p,
        {
            assert(tv[p as int].1 == top@[p as int].1);
            if total > top[p].1 {
                break;
            }
            p = p + 1;
        }
        let ghost jn = j + 1;
        assert forall|q: int| 0 <= q < j implies nv.take(jn).contains(#[trigger] nv.take(j as int)[q]) by {
            assert(nv.take(jn)[q] == nv.take(j as int)[q]);
        }
        assert(nv.take(jn)[j as int] == n);
        if p < TOP_FIVE {
            proof {
                lemma_insert_sorted(tv, e, p as int, author_order());
                lemma_insert_no_duplicates(names_of(tv), p as int, n);
            }
            top.insert(p, entry);
            let ghost a1 = authors_view(top@);
            let ghost t1 = totals_of(a1);
            assert(a1 =~= av.insert(p as int, author_view(entry)));
            assert(t1 =~= tv.insert(p as int, e));
            assert(names_of(t1) =~= names_of(tv).insert(p as int, n));
            if top.len() > TOP_FIVE {
                let ghost dropped = t1[TOP_FIVE as int];
                assert(dropped == tv[4]);
                top.pop();
                assert(authors_view(top@) =~= a1.drop_last());
                assert(totals_of(authors_view(top@)) =~= t1.drop_last());
                assert(names_of(totals_of(authors_view(top@))) =~= names_of(t1).drop_last());
                assert forall|q: int|
                    0 <= q < jn && !names_of(totals_of(authors_view(top@))).contains(#[trigger] nv[q]) implies after_all(
                        (nv[q], review_total(group_of(all, nv[q])) as u32),
                        totals_of(authors_view(top@)),
                        author_order(),
                    ) by {
                    let x = (nv[q], review_total(group_of(all, nv[q])) as u32);
                    let tt = totals_of(authors_view(top@));
                    if nv[q] == dropped.0 {
                        assert(x == dropped);
                        assert forall|t: int| 0 <= t < tt.len() implies !author_order()(x, #[trigger] tt[t]) by {
                            assert(tt[t] == t1[t]);
                        }
                    } else {
                        if names_of(t1).contains(nv[q]) {
                            let k = choose|k: int| 0 <= k < names_of(t1).len() && names_of(t1)[k] == nv[q];
                            if k < TOP_FIVE {
                                assert(names_of(tt)[k] == nv[q]);
                            } else {
                                assert(names_of(t1)[k] == dropped.0);
                            }
                        }
                        assert(!names_of(tv).contains(nv[q]));
                        lemma_after_all_insert(x, tv, e, p as int, author_order());
                        assert forall|t: int| 0 <= t < tt.len() implies !author_order()(x, #[trigger] tt[t]) by {
                            assert(tt[t] == t1[t]);
                        }
                    }
                }
            } else {
                assert forall|q: int| 0 <= q < jn implies names_of(totals_of(authors_view(top@))).contains(#[trigger] nv[q]) by {
                    if q < j {
                        assert(names_of(tv).contains(nv[q]));
                    }
                }
            }
        } else {
            assert(tv.len() == TOP_FIVE);
            assert(after_all(e, tv, author_order()));
        }
        j = j + 1;
    }
    assert(nv.take(j as int) =~= nv);
    top
}

/// Whether the number of reviews of a list of books fits in a `u32`.
fn total_fits(g: &Vec<(String, u32)>) -> (r: bool)
    ensures
        r == (review_total(entries_view(g@)) <= u32::MAX),
{
    let ghost gv = entries_view(g@);
    let mut t: u32 = 0;
    let mut k: usize = 0;
    while k < g.len()
        invariant
            k <= g@.len(),
            gv == entries_view(g@),
            t == review_total(gv.take(k as int)),
        decreases g@.len() - k,
    {
        proof {
            lemma_total_prefix(gv, k + 1);
            assert(gv.take(k + 1).drop_last() =~= gv.take(k as int));
            assert(gv[k as int] == entry_view(g@[k as int]));
        }
        match t.checked_add(g[k].1) {
            Some(v) => t = v,
            None => return false,
        }
        k = k + 1;
    }
    assert(gv.take(k as int) =~= gv);
    true
}

/// Whether no author's number of reviews exceeds `u32::MAX`, which
/// `top_authors_by_reviews` needs.
pub fn author_totals_fit(books: &[Book], authors: &AuthorNames) -> (r: bool)
    ensures
        r == forall|n: Seq<char>|
            review_total(#[trigger] group_of(author_entries(books@, authors@), n)) <= u32::MAX,
{
    let ghost all = author_entries(books@, authors@);
    let (seen, groups) = group_by_author(books, authors);
    let ghost nv = seen@.map_values(|s: String| s@);
    let mut j: usize = 0;
    while j < groups.len()
        invariant
            j <= groups@.len(),
            groups@.len() == seen@.len(),
            all == author_entries(books@, authors@),
            nv == seen@.map_values(|s: String| s@),
            forall|g: int|
                0 <= g < groups@.len() ==> entries_view(#[trigger] groups@[g]@) == group_of(all, seen@[g]@),
            forall|g: int| 0 <= g < j ==> review_total(group_of(all, #[trigger] nv[g])) <= u32::MAX,
        decreases groups@.len() - j,
    {
        assert(nv[j as int] == seen@[j as int]@);
        if !total_fits(&groups[j]) {
            assert(review_total(group_of(all, nv[j as int])) > u32::MAX);
            assert(review_total(group_of(author_entries(books@, authors@), nv[j as int]))
                > u32::MAX);
            return false;
        }
        j = j + 1;
    }
    assert forall|n: Seq<char>| review_total(#[trigger] group_of(all, n)) <= u32::MAX by {
        if entry_names(all).contains(n) {
            assert(nv.contains(n));
            let g = choose|g: int| 0 <= g < nv.len() && nv[g] == n;
            assert(review_total(group_of(all, nv[g])) <= u32::MAX);
        } else {
            lemma_group_absent(all, n);
        }
    }
    true
}

} // verus!

//! Text helpers: the ordering of strings, sorting and building strings.
use vstd::prelude::*;
use vstd::string::StrSliceExecFns;

verus! {

/// A strict total order on `A`.
pub open spec fn strict_total_order<A>(lt: spec_fn(A, A) -> bool) -> bool {
    &&& forall|x: A| !#[trigger] lt(x, x)
    &&& forall|x: A, y: A, z: A| #[trigger] lt(x, y) && #[trigger] lt(y, z) ==> lt(x, z)
    &&& forall|x: A, y: A| x != y ==> #[trigger] lt(x, y) || #[trigger] lt(y, x)
}

/// Lexicographic order of sequences, elements compared by `lt`.
pub open spec fn lex_lt<A>(a: Seq<A>, b: Seq<A>, lt: spec_fn(A, A) -> bool) -> bool
    decreases a.len(),
{
    if a.len() == 0 {
        b.len() > 0
    } else if b.len() == 0 {
        false
    } else if a[0] != b[0] {
        lt(a[0], b[0])
    } else {
        lex_lt(a.drop_first(), b.drop_first(), lt)
    }
}

pub proof fn lemma_lex_irreflexive<A>(a: Seq<A>, lt: spec_fn(A, A) -> bool)
    ensures
        !lex_lt(a, a, lt),
    decreases a.len(),
{
    if a.len() > 0 {
        lemma_lex_irreflexive(a.drop_first(), lt);
    }
}

pub proof fn lemma_lex_transitive<A>(a: Seq<A>, b: Seq<A>, c: Seq<A>, lt: spec_fn(A, A) -> bool)
    requires
        strict_total_order(lt),
        lex_lt(a, b, lt),
        lex_lt(b, c, lt),
    ensures
        lex_lt(a, c, lt),
    decreases a.len(),
{
    if a.len() > 0 && b.len() > 0 && c.len() > 0 {
        if a[0] == b[0] && b[0] == c[0] {
            lemma_lex_transitive(a.drop_first(), b.drop_first(), c.drop_first(), lt);
        } else if a[0] == b[0] {
        } else if b[0] == c[0] {
        } else {
            assert(lt(a[0], b[0]) && lt(b[0], c[0]));
            if a[0] == c[0] {
                assert(lt(a[0], a[0]));
            }
        }
    }
}

pub proof fn lemma_lex_total<A>(a: Seq<A>, b: Seq<A>, lt: spec_fn(A, A) -> bool)
    requires
        strict_total_order(lt),
        a != b,
    ensures
        lex_lt(a, b, lt) || lex_lt(b, a, lt),
    decreases a.len(),
{
    if a.len() == 0 {
        assert(b.len() > 0) by {
            if b.len() == 0 {
                assert(a =~= b);
            }
        }
    } else if b.len() == 0 {
    } else if a[0] != b[0] {
        assert(lt(a[0], b[0]) || lt(b[0], a[0]));
    } else {
        if a.drop_first() == b.drop_first() {
            assert(a =~= seq![a[0]] + a.drop_first());
            assert(b =~= seq![b[0]] + b.drop_first());
        }
        lemma_lex_total(a.drop_first(), b.drop_first(), lt);
    }
}

pub proof fn lemma_lex_asymmetric<A>(a: Seq<A>, b: Seq<A>, lt: spec_fn(A, A) -> bool)
    requires
        strict_total_order(lt),
        lex_lt(a, b, lt),
    ensures
        !lex_lt(b, a, lt),
{
    if lex_lt(b, a, lt) {
        lemma_lex_transitive(a, b, a, lt);
        lemma_lex_irreflexive(a, lt);
    }
}

/// The lexicographic order is itself a strict total order.
pub proof fn lemma_lex_strict_total<A>(lt: spec_fn(A, A) -> bool)
    requires
        strict_total_order(lt),
    ensures
        strict_total_order(|a: Seq<A>, b: Seq<A>| lex_lt(a, b, lt)),
{
    let l = |a: Seq<A>, b: Seq<A>| lex_lt(a, b, lt);
    assert forall|x: Seq<A>| !#[trigger] l(x, x) by {
        lemma_lex_irreflexive(x, lt);
    }
    assert forall|x: Seq<A>, y: Seq<A>, z: Seq<A>| #[trigger] l(x, y) && #[trigger] l(y, z) implies l(
        x,
        z,
    ) by {
        lemma_lex_transitive(x, y, z, lt);
    }
    assert forall|x: Seq<A>, y: Seq<A>| x != y implies #[trigger] l(x, y) || #[trigger] l(y, x) by {
        lemma_lex_total(x, y, lt);
    }
}

/// Characters ordered by code point; on `str` this is the order of the UTF-8 bytes.
pub open spec fn char_order() -> spec_fn(char, char) -> bool {
    |x: char, y: char| (x as int) < (y as int)
}

/// The order of `String`/`str` values (`<` of Rust's `Ord` for strings).
pub open spec fn text_lt(a: Seq<char>, b: Seq<char>) -> bool {
    lex_lt(a, b, char_order())
}

pub open spec fn text_order() -> spec_fn(Seq<char>, Seq<char>) -> bool {
    |a: Seq<char>, b: Seq<char>| text_lt(a, b)
}

pub proof fn lemma_char_order()
    ensures
        strict_total_order(char_order()),
{
    assert forall|x: char, y: char| x != y implies #[trigger] char_order()(x, y) || #[trigger] char_order()(
        y,
        x,
    ) by {
    }
}

pub proof fn lemma_text_order()
    ensures
        strict_total_order(text_order()),
{
    lemma_char_order();
    lemma_lex_strict_total(char_order());
    assert(text_order() =~= |a: Seq<char>, b: Seq<char>| lex_lt(a, b, char_order()));
}

pub proof fn lemma_text_irreflexive(a: Seq<char>)
    ensures
        !text_lt(a, a),
{
    lemma_lex_irreflexive(a, char_order());
}

pub proof fn lemma_text_transitive(a: Seq<char>, b: Seq<char>, c: Seq<char>)
    requires
        text_lt(a, b),
        text_lt(b, c),
    ensures
        text_lt(a, c),
{
    lemma_char_order();
    lemma_lex_transitive(a, b, c, char_order());
}

pub proof fn lemma_text_total(a: Seq<char>, b: Seq<char>)
    requires
        a != b,
    ensures
        text_lt(a, b) || text_lt(b, a),
{
    lemma_char_order();
    lemma_lex_total(a, b, char_order());
}

pub proof fn lemma_text_asymmetric(a: Seq<char>, b: Seq<char>)
    requires
        text_lt(a, b),
    ensures
        !text_lt(b, a),
{
    lemma_char_order();
    lemma_lex_asymmetric(a, b, char_order());
}

/// Non-decreasing in string order.
pub open spec fn text_sorted(s: Seq<Seq<char>>) -> bool {
    forall|i: int, j: int| 0 <= i < j < s.len() ==> !text_lt(#[trigger] s[j], #[trigger] s[i])
}

/// Strictly increasing in string order (sorted, no duplicates).
pub open spec fn text_strictly_sorted(s: Seq<Seq<char>>) -> bool {
    forall|i: int, j: int| 0 <= i < j < s.len() ==> text_lt(#[trigger] s[i], #[trigger] s[j])
}

/// The views of a sequence of strings.
pub open spec fn strs(v: Seq<String>) -> Seq<Seq<char>> {
    v.map_values(|s: String| s@)
}

/// `a < b` for strings, as Rust's `Ord` compares them.
pub fn str_lt(a: &str, b: &str) -> (r: bool)
    ensures
        r == text_lt(a@, b@),
{
    let la = a.unicode_len();
    let lb = b.unicode_len();
    let mut i: usize = 0;
    assert(a@.skip(0) =~= a@ && b@.skip(0) =~= b@);
    while i < la && i < lb
        invariant
            la == a@.len(),
            lb == b@.len(),
            i <= la,
            i <= lb,
            text_lt(a@, b@) == text_lt(a@.skip(i as int), b@.skip(i as int)),
        decreases la - i,
    {
        let ca = a.get_char(i);
        let cb = b.get_char(i);
        if ca != cb {
            assert(a@.skip(i as int)[0] == ca);
            assert(b@.skip(i as int)[0] == cb);
            return (ca as u32) < (cb as u32);
        }
        assert(a@.skip(i as int).drop_first() =~= a@.skip(i + 1));
        assert(b@.skip(i as int).drop_first() =~= b@.skip(i + 1));
        i = i + 1;
    }
    assert(i == la ==> a@.skip(i as int).len() == 0);
    assert(i == lb ==> b@.skip(i as int).len() == 0);
    i < lb && i == la
}

/// `a == b` for strings.
pub fn str_eq(a: &str, b: &str) -> (r: bool)
    ensures
        r == (a@ == b@),
{
    let la = a.unicode_len();
    let lb = b.unicode_len();
    if la != lb {
        return false;
    }
    let mut i: usize = 0;
    while i < la
        invariant
            la == a@.len(),
            lb == b@.len(),
            la == lb,
            i <= la,
            a@.take(i as int) =~= b@.take(i as int),
        decreases la - i,
    {
        if a.get_char(i) != b.get_char(i) {
            return false;
        }
        assert(a@.take(i + 1) =~= a@.take(i as int).push(a@[i as int]));
        assert(b@.take(i + 1) =~= b@.take(i as int).push(b@[i as int]));
        i = i + 1;
    }
    assert(a@ =~= a@.take(la as int));
    assert(b@ =~= b@.take(lb as int));
    true
}

/// An owned copy of `s`.
pub fn str_to_string(s: &str) -> (res: String)
    ensures
        res@ == s@,
{
    broadcast use vstd::string::group_string_axioms;

    s.to_string()
}

/// std's `String::push`: appends one character.
///
/// Trusted: the string's characters afterwards are the ones before followed by `ch`, as the
/// method's documentation says.
pub assume_specification[ String::push ](s: &mut String, ch: char)
    ensures
        final(s)@ == old(s)@.push(ch),
;

/// Appends `other` to `s`.
pub fn push_text(s: &mut String, other: &str)
    ensures
        final(s)@ == old(s)@ + other@,
{
    let n = other.unicode_len();
    let ghost start = s@;
    let mut i: usize = 0;
    while i < n
        invariant
            n == other@.len(),
            i <= n,
            s@ == start + other@.take(i as int),
        decreases n - i,
    {
        s.push(other.get_char(i));
        assert(other@.take(i + 1) =~= other@.take(i as int).push(other@[i as int]));
        i = i + 1;
    }
    assert(other@.take(n as int) =~= other@);
}

/// Inserting `e` into a sequence adds it to the multiset.
pub proof fn lemma_insert_multiset<A>(s: Seq<A>, p: int, e: A)
    requires
        0 <= p <= s.len(),
    ensures
        s.insert(p, e).to_multiset() =~= s.to_multiset().insert(e),
{
    broadcast use vstd::seq_lib::group_to_multiset_ensures;

    let a = s.take(p);
    let b = s.skip(p);
    assert(s =~= a + b);
    assert(s.insert(p, e) =~= a.push(e) + b);
    vstd::seq_lib::lemma_multiset_commutative(a, b);
    vstd::seq_lib::lemma_multiset_commutative(a.push(e), b);
}

/// The views of `v` after inserting `x` at `p`.
pub proof fn lemma_strs_insert(v: Seq<String>, p: int, x: String)
    requires
        0 <= p <= v.len(),
    ensures
        strs(v.insert(p, x)) =~= strs(v).insert(p, x@),
{
}

/// The first position of `s` holding a string greater than `x` (its length if none).
pub open spec fn insertion_point(s: Seq<Seq<char>>, x: Seq<char>) -> int
    decreases s.len(),
{
    if s.len() == 0 {
        0
    } else if text_lt(x, s[0]) {
        0
    } else {
        1 + insertion_point(s.drop_first(), x)
    }
}

/// Insertion sort of strings: each string goes after the equal or smaller ones already placed.
pub open spec fn text_sort(s: Seq<Seq<char>>) -> Seq<Seq<char>>
    decreases s.len(),
{
    if s.len() == 0 {
        Seq::empty()
    } else {
        let r = text_sort(s.drop_last());
        r.insert(insertion_point(r, s.last()), s.last())
    }
}

proof fn lemma_insertion_point(s: Seq<Seq<char>>, x: Seq<char>, p: int)
    requires
        0 <= p <= s.len(),
        forall|i: int| 0 <= i < p ==> !text_lt(x, #[trigger] s[i]),
        p == s.len() || text_lt(x, s[p]),
    ensures
        insertion_point(s, x) == p,
    decreases s.len(),
{
    if s.len() > 0 && p > 0 {
        lemma_insertion_point(s.drop_first(), x, p - 1);
    }
}

/// Sorts strings in `Ord` order (as `Vec::sort` does), keeping duplicates.
pub fn sort_strings(v: &Vec<String>) -> (res: Vec<String>)
    ensures
        strs(res@) == text_sort(strs(v@)),
        text_sorted(strs(res@)),
        strs(res@).to_multiset() == strs(v@).to_multiset(),
{
    let mut res: Vec<String> = Vec::new();
    let mut k: usize = 0;
    assert(strs(res@) =~= strs(v@.take(0)));
    while k < v.len()
        invariant
            k <= v.len(),
            strs(res@) == text_sort(strs(v@.take(k as int))),
            text_sorted(strs(res@)),
            strs(res@).to_multiset() == strs(v@.take(k as int)).to_multiset(),
        decreases v.len() - k,
    {
        let x = v[k].clone();
        // first position holding a greater string
        let mut p: usize = 0;
        while p < res.len() && !str_lt(x.as_str(), res[p].as_str())
            invariant
                p <= res.len(),
                forall|i: int| 0 <= i < p ==> !text_lt(x@, #[trigger] res@[i]@),
            decreases res.len() - p,
        {
            p = p + 1;
        }
        let ghost old_res = res@;
        res.insert(p, x);
        proof {
            lemma_insertion_point(strs(old_res), x@, p as int);
            assert(strs(v@.take(k + 1)).drop_last() =~= strs(v@.take(k as int)));
            assert(strs(v@.take(k + 1)).last() == x@);
            lemma_strs_insert(old_res, p as int, x);
            lemma_insert_multiset(strs(old_res), p as int, x@);
            assert(strs(v@.take(k + 1)) =~= strs(v@.take(k as int)).push(x@));
            vstd::seq_lib::lemma_multiset_commutative(strs(v@.take(k as int)), seq![x@]);
            assert(strs(v@.take(k as int)).push(x@) =~= strs(v@.take(k as int)) + seq![x@]);
            assert(strs(old_res).insert(p as int, x@).to_multiset() =~= strs(v@.take(k + 1)).to_multiset())
                by {
                broadcast use vstd::seq_lib::group_to_multiset_ensures;

            }
            assert forall|i: int, j: int| 0 <= i < j < res@.len() implies !text_lt(
                #[trigger] strs(res@)[j],
                #[trigger] strs(res@)[i],
            ) by {
                let s = strs(res@);
                let o = strs(old_res);
                if j < p {
                    assert(s[i] == o[i] && s[j] == o[j]);
                } else if i > p {
                    assert(s[i] == o[i - 1] && s[j] == o[j - 1]);
                } else if i == p {
                    assert(s[i] == x@);
                    assert(s[j] == o[j - 1]);
                    assert(text_lt(x@, o[p as int]));
                    if j - 1 == p {
                        lemma_text_asymmetric(x@, o[p as int]);
                    } else {
                        assert(!text_lt(o[j - 1], o[p as int]));
                        if text_lt(o[j - 1], x@) {
                            lemma_text_transitive(o[j - 1], x@, o[p as int]);
                        }
                    }
                } else if j == p {
                    assert(s[j] == x@);
                    assert(s[i] == o[i]);
                } else {
                    assert(s[i] == o[i] && s[j] == o[j - 1]);
                }
            }
        }
        k = k + 1;
    }
    assert(v@.take(v.len() as int) =~= v@);
    res
}

/// Inserts `x` into a strictly sorted vector unless it is already there.
pub fn sorted_set_insert(v: &mut Vec<String>, x: String)
    requires
        text_strictly_sorted(strs(old(v)@)),
    ensures
        text_strictly_sorted(strs(final(v)@)),
        strs(final(v)@).to_set() == strs(old(v)@).to_set().insert(x@),
{
    let mut p: usize = 0;
    while p < v.len() && str_lt(v[p].as_str(), x.as_str())
        invariant
            p <= v.len(),
            forall|i: int| 0 <= i < p ==> text_lt(#[trigger] v@[i]@, x@),
        decreases v.len() - p,
    {
        p = p + 1;
    }
    if p < v.len() && str_eq(v[p].as_str(), x.as_str()) {
        assert(strs(v@).to_set().insert(x@) =~= strs(v@).to_set()) by {
            assert(strs(v@)[p as int] == x@);
        }
        return;
    }
    let ghost old_v = v@;
    v.insert(p, x);
    proof {
        lemma_strs_insert(old_v, p as int, x);
        let s = strs(v@);
        let o = strs(old_v);
        assert forall|i: int, j: int| 0 <= i < j < s.len() implies text_lt(
            #[trigger] s[i],
            #[trigger] s[j],
        ) by {
            if j < p {
                assert(s[i] == o[i] && s[j] == o[j]);
            } else if i > p {
                assert(s[i] == o[i - 1] && s[j] == o[j - 1]);
            } else if i == p {
                assert(s[i] == x@ && s[j] == o[j - 1]);
                assert(p < o.len());
                assert(!text_lt(o[p as int], x@) && o[p as int] != x@);
                lemma_text_total(o[p as int], x@);
                if j - 1 > p {
                    assert(text_lt(o[p as int], o[j - 1]));
                    lemma_text_transitive(x@, o[p as int], o[j - 1]);
                }
            } else if j == p {
                assert(s[j] == x@ && s[i] == o[i]);
            } else {
                assert(s[i] == o[i] && s[j] == o[j - 1]);
            }
        }
        assert(s.to_set() =~= o.to_set().insert(x@)) by {
            assert forall|e: Seq<char>| s.to_set().contains(e) <==> o.to_set().insert(x@).contains(e) by {
                if s.contains(e) {
                    let i = choose|i: int| 0 <= i < s.len() && s[i] == e;
                    if i < p {
                        assert(o[i] == e);
                    } else if i > p {
                        assert(o[i - 1] == e);
                    }
                }
                if o.contains(e) {
                    let i = choose|i: int| 0 <= i < o.len() && o[i] == e;
                    if i < p {
                        assert(s[i] == e);
                    } else {
                        assert(s[i + 1] == e);
                    }
                }
                if e == x@ {
                    assert(s[p as int] == e);
                }
            }
        }
    }
}

/// Sorts strings and removes duplicates (`sort` then `dedup`).
pub fn sort_dedup_strings(v: &Vec<String>) -> (res: Vec<String>)
    ensures
        text_strictly_sorted(strs(res@)),
        strs(res@).to_set() == strs(v@).to_set(),
{
    let mut res: Vec<String> = Vec::new();
    let mut k: usize = 0;
    assert(strs(res@) =~= strs(v@.take(0)));
    while k < v.len()
        invariant
            k <= v.len(),
            text_strictly_sorted(strs(res@)),
            strs(res@).to_set() == strs(v@.take(k as int)).to_set(),
        decreases v.len() - k,
    {
        sorted_set_insert(&mut res, v[k].clone());
        proof {
            assert(strs(v@.take(k + 1)) =~= strs(v@.take(k as int)).push(v@[k as int]@));
            strs(v@.take(k as int)).lemma_push_to_set_commute(v@[k as int]@);
        }
        k = k + 1;
    }
    assert(v@.take(v.len() as int) =~= v@);
    res
}


proof fn lemma_insertion_point_props(s: Seq<Seq<char>>, x: Seq<char>)
    ensures
        0 <= insertion_point(s, x) <= s.len(),
        forall|i: int| 0 <= i < insertion_point(s, x) ==> !text_lt(x, #[trigger] s[i]),
        insertion_point(s, x) < s.len() ==> text_lt(x, s[insertion_point(s, x)]),
    decreases s.len(),
{
    if s.len() > 0 && !text_lt(x, s[0]) {
        lemma_insertion_point_props(s.drop_first(), x);
        assert forall|i: int| 0 <= i < insertion_point(s, x) implies !text_lt(x, #[trigger] s[i]) by {
            if i > 0 {
                assert(s[i] == s.drop_first()[i - 1]);
            }
        }
    }
}

/// Sorting keeps the strings (as a multiset) and puts them in order.
pub proof fn lemma_text_sort_sorted(s: Seq<Seq<char>>)
    ensures
        text_sorted(text_sort(s)),
        text_sort(s).to_multiset() == s.to_multiset(),
    decreases s.len(),
{
    broadcast use vstd::seq_lib::group_to_multiset_ensures;

    if s.len() > 0 {
        let r = text_sort(s.drop_last());
        let x = s.last();
        lemma_text_sort_sorted(s.drop_last());
        lemma_insertion_point_props(r, x);
        let p = insertion_point(r, x);
        let t = r.insert(p, x);
        lemma_insert_multiset(r, p, x);
        assert(s =~= s.drop_last().push(x));
        assert forall|i: int, j: int| 0 <= i < j < t.len() implies !text_lt(#[trigger] t[j], #[trigger] t[i]) by {
            if j < p {
                assert(t[i] == r[i] && t[j] == r[j]);
            } else if i > p {
                assert(t[i] == r[i - 1] && t[j] == r[j - 1]);
            } else if i == p {
                assert(t[i] == x && t[j] == r[j - 1]);
                if j - 1 == p {
                    lemma_text_asymmetric(x, r[p]);
                } else {
                    assert(!text_lt(r[j - 1], r[p]));
                    if text_lt(r[j - 1], x) {
                        lemma_text_transitive(r[j - 1], x, r[p]);
                    }
                }
            } else if j == p {
                assert(t[j] == x && t[i] == r[i]);
            } else {
                assert(t[i] == r[i] && t[j] == r[j - 1]);
            }
        }
    }
}

/// Two sequences in order holding the same strings (as multisets) are equal.
pub proof fn lemma_sorted_unique(a: Seq<Seq<char>>, b: Seq<Seq<char>>)
    requires
        text_sorted(a),
        text_sorted(b),
        a.to_multiset() == b.to_multiset(),
    ensures
        a == b,
    decreases a.len(),
{
    broadcast use vstd::seq_lib::group_to_multiset_ensures;

    assert(a.len() == a.to_multiset().len());
    assert(b.len() == b.to_multiset().len());
    if a.len() == 0 {
        assert(a =~= b);
    } else {
        assert(a.to_multiset().count(a[0]) > 0) by {
            assert(a.contains(a[0]));
        }
        assert(b.to_multiset().count(b[0]) > 0) by {
            assert(b.contains(b[0]));
        }
        assert(b.contains(a[0]));
        assert(a.contains(b[0]));
        let j = choose|j: int| 0 <= j < b.len() && b[j] == a[0];
        let i = choose|i: int| 0 <= i < a.len() && a[i] == b[0];
        if a[0] != b[0] {
            assert(i != 0 && j != 0);
            assert(!text_lt(a[i], a[0]));
            assert(!text_lt(b[j], b[0]));
            lemma_text_total(a[0], b[0]);
        }
        let ta = a.drop_first();
        let tb = b.drop_first();
        assert(a =~= seq![a[0]] + ta);
        assert(b =~= seq![b[0]] + tb);
        vstd::seq_lib::lemma_multiset_commutative(seq![a[0]], ta);
        vstd::seq_lib::lemma_multiset_commutative(seq![b[0]], tb);
        assert(seq![a[0]].to_multiset() =~= vstd::multiset::Multiset::empty().insert(a[0])) by {
            assert(seq![a[0]] =~= Seq::<Seq<char>>::empty().push(a[0]));
        }
        assert(a[0] == b[0]);
        assert(ta.to_multiset() =~= tb.to_multiset()) by {
            let m0 = seq![a[0]].to_multiset();
            assert(a.to_multiset() == m0.add(ta.to_multiset()));
            assert(b.to_multiset() == m0.add(tb.to_multiset()));
            assert forall|x: Seq<char>| ta.to_multiset().count(x) == tb.to_multiset().count(x) by {
                assert(a.to_multiset().count(x) == m0.count(x) + ta.to_multiset().count(x));
                assert(b.to_multiset().count(x) == m0.count(x) + tb.to_multiset().count(x));
            }
        }
        assert(text_sorted(ta)) by {
            assert forall|x: int, y: int| 0 <= x < y < ta.len() implies !text_lt(#[trigger] ta[y], #[trigger] ta[x]) by {
                assert(ta[x] == a[x + 1] && ta[y] == a[y + 1]);
            }
        }
        assert(text_sorted(tb)) by {
            assert forall|x: int, y: int| 0 <= x < y < tb.len() implies !text_lt(#[trigger] tb[y], #[trigger] tb[x]) by {
                assert(tb[x] == b[x + 1] && tb[y] == b[y + 1]);
            }
        }
        lemma_sorted_unique(ta, tb);
    }
}

/// Sorting depends on the strings only, not on their order: sequences holding the same
/// strings (as multisets) sort to the same sequence.
pub proof fn lemma_text_sort_order_free(a: Seq<Seq<char>>, b: Seq<Seq<char>>)
    requires
        a.to_multiset() == b.to_multiset(),
    ensures
        text_sort(a) == text_sort(b),
{
    lemma_text_sort_sorted(a);
    lemma_text_sort_sorted(b);
    lemma_sorted_unique(text_sort(a), text_sort(b));
}

} // verus!

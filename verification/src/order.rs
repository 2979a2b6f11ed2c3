//! The order in which names and lists of names are kept: lexicographic,
//! character by character by code point (the order of `str`, since UTF-8
//! keeps code point order), and for lists of names, name by name (the order
//! of `Vec<String>`).
use vstd::prelude::*;
use vstd::relations::sorted_by;
use vstd::relations::strict_total_ordering;

verus! {

/// Lexicographic order over sequences, by the order `lt` of their items.
pub open spec fn lex_lt<T>(a: Seq<T>, b: Seq<T>, lt: spec_fn(T, T) -> bool) -> bool
    decreases a.len(),
{
    if b.len() == 0 {
        false
    } else if a.len() == 0 {
        true
    } else if lt(a[0], b[0]) {
        true
    } else if a[0] == b[0] {
        lex_lt(a.drop_first(), b.drop_first(), lt)
    } else {
        false
    }
}

/// Characters by code point.
pub open spec fn char_lt() -> spec_fn(char, char) -> bool {
    |x: char, y: char| (x as int) < (y as int)
}

/// Names in lexicographic order.
pub open spec fn name_lt() -> spec_fn(Seq<char>, Seq<char>) -> bool {
    |a: Seq<char>, b: Seq<char>| lex_lt(a, b, char_lt())
}

/// Lists of names in lexicographic order.
pub open spec fn names_lt() -> spec_fn(Seq<Seq<char>>, Seq<Seq<char>>) -> bool {
    |a: Seq<Seq<char>>, b: Seq<Seq<char>>| lex_lt(a, b, name_lt())
}

proof fn lemma_cons_eq<T>(a: Seq<T>, b: Seq<T>)
    requires
        a.len() > 0,
        b.len() > 0,
        a[0] == b[0],
        a.drop_first() == b.drop_first(),
    ensures
        a == b,
{
    assert(a.len() == b.len()) by {
        assert(a.drop_first().len() == a.len() - 1);
        assert(b.drop_first().len() == b.len() - 1);
    }
    assert forall|i: int| 0 <= i < a.len() implies a[i] == b[i] by {
        if i > 0 {
            assert(a[i] == a.drop_first()[i - 1]);
            assert(b[i] == b.drop_first()[i - 1]);
        }
    }
    assert(a =~= b);
}

proof fn lemma_lex_irreflexive<T>(a: Seq<T>, lt: spec_fn(T, T) -> bool)
    requires
        strict_total_ordering(lt),
    ensures
        !lex_lt(a, a, lt),
    decreases a.len(),
{
    if a.len() > 0 {
        assert(lt(a[0], a[0]) == false);
        lemma_lex_irreflexive(a.drop_first(), lt);
    }
}

proof fn lemma_lex_connected<T>(a: Seq<T>, b: Seq<T>, lt: spec_fn(T, T) -> bool)
    requires
        strict_total_ordering(lt),
        a != b,
    ensures
        lex_lt(a, b, lt) || lex_lt(b, a, lt),
    decreases a.len(),
{
    if a.len() == 0 && b.len() == 0 {
        assert(a =~= b);
    } else if a.len() > 0 && b.len() > 0 {
        if a[0] == b[0] {
            if a.drop_first() == b.drop_first() {
                lemma_cons_eq(a, b);
            }
            lemma_lex_connected(a.drop_first(), b.drop_first(), lt);
        } else {
            assert(lt(a[0], b[0]) || lt(b[0], a[0]));
        }
    }
}

proof fn lemma_lex_transitive<T>(a: Seq<T>, b: Seq<T>, c: Seq<T>, lt: spec_fn(T, T) -> bool)
    requires
        strict_total_ordering(lt),
        lex_lt(a, b, lt),
        lex_lt(b, c, lt),
    ensures
        lex_lt(a, c, lt),
    decreases a.len(),
{
    if a.len() > 0 {
        if lt(a[0], b[0]) && lt(b[0], c[0]) {
            assert(lt(a[0], c[0]));
        } else if a[0] == b[0] && b[0] == c[0] {
            lemma_lex_transitive(a.drop_first(), b.drop_first(), c.drop_first(), lt);
        }
    }
}

/// Lexicographic order is a strict total order where the items' order is.
pub proof fn lemma_lex_order<T>(lt: spec_fn(T, T) -> bool)
    requires
        strict_total_ordering(lt),
    ensures
        forall|a: Seq<T>| #[trigger] lex_lt(a, a, lt) == false,
        forall|a: Seq<T>, b: Seq<T>| a != b ==> #[trigger] lex_lt(a, b, lt) || #[trigger] lex_lt(b, a, lt),
        forall|a: Seq<T>, b: Seq<T>, c: Seq<T>|
            #[trigger] lex_lt(a, b, lt) && #[trigger] lex_lt(b, c, lt) ==> lex_lt(a, c, lt),
{
    assert forall|a: Seq<T>| #[trigger] lex_lt(a, a, lt) == false by {
        lemma_lex_irreflexive(a, lt);
    }
    assert forall|a: Seq<T>, b: Seq<T>| a != b implies #[trigger] lex_lt(a, b, lt) || #[trigger] lex_lt(
        b,
        a,
        lt,
    ) by {
        lemma_lex_connected(a, b, lt);
    }
    assert forall|a: Seq<T>, b: Seq<T>, c: Seq<T>|
        #[trigger] lex_lt(a, b, lt) && #[trigger] lex_lt(b, c, lt) implies lex_lt(a, c, lt) by {
        lemma_lex_transitive(a, b, c, lt);
    }
}

/// Characters by code point are strictly and totally ordered.
pub proof fn lemma_char_order()
    ensures
        strict_total_ordering(char_lt()),
{
}

/// Names are strictly and totally ordered.
pub proof fn lemma_name_order()
    ensures
        strict_total_ordering(name_lt()),
{
    lemma_char_order();
    lemma_lex_order(char_lt());
    assert forall|a: Seq<char>, b: Seq<char>|
        #[trigger] name_lt()(a, b) && #[trigger] name_lt()(b, a) implies a == b by {
        assert(lex_lt(a, a, char_lt()));
    }
}

/// Lists of names are strictly and totally ordered.
pub proof fn lemma_names_order()
    ensures
        strict_total_ordering(names_lt()),
{
    lemma_name_order();
    lemma_lex_order(name_lt());
    assert forall|a: Seq<Seq<char>>, b: Seq<Seq<char>>|
        #[trigger] names_lt()(a, b) && #[trigger] names_lt()(b, a) implies a == b by {
        assert(lex_lt(a, a, name_lt()));
    }
}

/// Putting `x` at `p` keeps a sorted sequence sorted, where what comes
/// before `p` is below `x` and what comes at `p` is above it.
pub proof fn lemma_insert_sorted<T>(s: Seq<T>, x: T, p: int, lt: spec_fn(T, T) -> bool)
    requires
        strict_total_ordering(lt),
        sorted_by(s, lt),
        0 <= p <= s.len(),
        forall|k: int| 0 <= k < p ==> lt(#[trigger] s[k], x),
        p < s.len() ==> lt(x, s[p]),
    ensures
        sorted_by(s.insert(p, x), lt),
{
    let t = s.insert(p, x);
    assert forall|i: int, j: int| 0 <= i < j < t.len() implies #[trigger] lt(t[i], t[j]) by {
        if j < p {
            assert(lt(s[i], s[j]));
        } else if j == p {
            assert(lt(s[i], x));
        } else if i < p {
            assert(lt(s[i], s[j - 1]));
        } else if i == p {
            if j - 1 > p {
                assert(lt(s[p], s[j - 1]));
            }
            assert(lt(x, s[j - 1]));
        } else {
            assert(lt(s[i - 1], s[j - 1]));
        }
    }
}

/// What a sequence holds after an insertion: what it held, and the new item.
pub proof fn lemma_insert_contains<T>(s: Seq<T>, p: int, x: T)
    requires
        0 <= p <= s.len(),
    ensures
        forall|y: T| #[trigger] s.insert(p, x).contains(y) <==> (s.contains(y) || y == x),
{
    let t = s.insert(p, x);
    assert forall|y: T| #[trigger] t.contains(y) <==> (s.contains(y) || y == x) by {
        if t.contains(y) {
            let i = choose|i: int| 0 <= i < t.len() && t[i] == y;
            if i < p {
                assert(s[i] == y);
            } else if i > p {
                assert(s[i - 1] == y);
            }
        }
        if s.contains(y) {
            let i = choose|i: int| 0 <= i < s.len() && s[i] == y;
            if i < p {
                assert(t[i] == y);
            } else {
                assert(t[i + 1] == y);
            }
        }
        if y == x {
            assert(t[p] == y);
        }
    }
}

/// Two sequences sorted by a strict total order, with the same members,
/// are the same.
pub proof fn lemma_sorted_unique<T>(a: Seq<T>, b: Seq<T>, lt: spec_fn(T, T) -> bool)
    requires
        strict_total_ordering(lt),
        sorted_by(a, lt),
        sorted_by(b, lt),
        forall|x: T| #[trigger] a.contains(x) <==> b.contains(x),
    ensures
        a == b,
    decreases a.len(),
{
    if a.len() == 0 {
        if b.len() > 0 {
            assert(b.contains(b[0]));
            assert(a.contains(b[0]));
        }
        assert(a =~= b);
    } else {
        assert(a.contains(a[0]));
        assert(b.contains(a[0]));
        assert(b.len() > 0);
        assert(b.contains(b[0]));
        assert(a.contains(b[0]));
        let i = choose|i: int| 0 <= i < b.len() && b[i] == a[0];
        let j = choose|j: int| 0 <= j < a.len() && a[j] == b[0];
        if a[0] != b[0] {
            assert(i > 0 && j > 0);
            assert(lt(b[0], b[i]));
            assert(lt(a[0], a[j]));
            assert(lt(a[0], a[0]));
        }
        let ar = a.drop_first();
        let br = b.drop_first();
        assert forall|x: T| #[trigger] ar.contains(x) <==> br.contains(x) by {
            if ar.contains(x) {
                let p = choose|p: int| 0 <= p < ar.len() && ar[p] == x;
                assert(a[p + 1] == x);
                assert(lt(a[0], a[p + 1]));
                assert(a.contains(x));
                assert(b.contains(x));
                let q = choose|q: int| 0 <= q < b.len() && b[q] == x;
                if q == 0 {
                    assert(lt(x, x));
                }
                assert(br[q - 1] == x);
            }
            if br.contains(x) {
                let p = choose|p: int| 0 <= p < br.len() && br[p] == x;
                assert(b[p + 1] == x);
                assert(lt(b[0], b[p + 1]));
                assert(b.contains(x));
                assert(a.contains(x));
                let q = choose|q: int| 0 <= q < a.len() && a[q] == x;
                if q == 0 {
                    assert(lt(x, x));
                }
                assert(ar[q - 1] == x);
            }
        }
        assert(sorted_by(ar, lt)) by {
            assert forall|p: int, q: int| 0 <= p < q < ar.len() implies #[trigger] lt(ar[p], ar[q]) by {
                assert(lt(a[p + 1], a[q + 1]));
            }
        }
        assert(sorted_by(br, lt)) by {
            assert forall|p: int, q: int| 0 <= p < q < br.len() implies #[trigger] lt(br[p], br[q]) by {
                assert(lt(b[p + 1], b[q + 1]));
            }
        }
        lemma_sorted_unique(ar, br, lt);
        assert(a =~= b) by {
            assert forall|k: int| 0 <= k < a.len() implies a[k] == b[k] by {
                if k > 0 {
                    assert(a[k] == ar[k - 1]);
                    assert(b[k] == br[k - 1]);
                }
            }
        }
    }
}

/// Whether `a` comes before `b`.
pub fn name_less(a: &str, b: &str) -> (r: bool)
    ensures
        r == name_lt()(a@, b@),
{
    let x = crate::chars::chars_of(a);
    let y = crate::chars::chars_of(b);
    let mut i: usize = 0;
    assert(x@.skip(0) =~= x@);
    assert(y@.skip(0) =~= y@);
    while i < x.len() && i < y.len()
        invariant
            0 <= i <= x.len(),
            i <= y.len(),
            x@ == a@,
            y@ == b@,
            lex_lt(x@, y@, char_lt()) == lex_lt(x@.skip(i as int), y@.skip(i as int), char_lt()),
        decreases x.len() - i,
    {
        assert(x@.skip(i as int)[0] == x@[i as int]);
        assert(y@.skip(i as int)[0] == y@[i as int]);
        assert(x@.skip(i as int).len() > 0 && y@.skip(i as int).len() > 0);
        if x[i] < y[i] {
            assert(char_lt()(x@[i as int], y@[i as int]));
            assert(lex_lt(x@.skip(i as int), y@.skip(i as int), char_lt()));
            return true;
        }
        if x[i] != y[i] {
            assert(!char_lt()(x@[i as int], y@[i as int]));
            assert(!lex_lt(x@.skip(i as int), y@.skip(i as int), char_lt()));
            return false;
        }
        assert(x@.skip(i as int).drop_first() =~= x@.skip(i + 1));
        assert(y@.skip(i as int).drop_first() =~= y@.skip(i + 1));
        i += 1;
    }
    i < y.len()
}

/// Whether the list of names `a` comes before `b`.
pub fn names_less(a: &Vec<String>, b: &Vec<String>) -> (r: bool)
    ensures
        r == names_lt()(a.deep_view(), b.deep_view()),
{
    let ghost x = a.deep_view();
    let ghost y = b.deep_view();
    let mut i: usize = 0;
    assert(x.skip(0) =~= x);
    assert(y.skip(0) =~= y);
    while i < a.len() && i < b.len()
        invariant
            0 <= i <= a.len(),
            i <= b.len(),
            x == a.deep_view(),
            y == b.deep_view(),
            lex_lt(x, y, name_lt()) == lex_lt(x.skip(i as int), y.skip(i as int), name_lt()),
        decreases a.len() - i,
    {
        assert(x.skip(i as int)[0] == a@[i as int]@);
        assert(y.skip(i as int)[0] == b@[i as int]@);
        if name_less(a[i].as_str(), b[i].as_str()) {
            return true;
        }
        if a[i] != b[i] {
            return false;
        }
        assert(x.skip(i as int).drop_first() =~= x.skip(i + 1));
        assert(y.skip(i as int).drop_first() =~= y.skip(i + 1));
        i += 1;
    }
    i < b.len()
}

/// Puts a name into a list kept in order without repeats.
pub fn insert_name(v: &mut Vec<String>, s: String)
    requires
        sorted_by(old(v).deep_view(), name_lt()),
    ensures
        sorted_by(final(v).deep_view(), name_lt()),
        forall|x: Seq<char>|
            #[trigger] final(v).deep_view().contains(x) <==> (old(v).deep_view().contains(x) || x == s@),
{
    proof {
        lemma_name_order();
    }
    let ghost d = v.deep_view();
    let mut p: usize = 0;
    while p < v.len() && name_less(v[p].as_str(), s.as_str())
        invariant
            0 <= p <= v.len(),
            d == v.deep_view(),
            forall|k: int| 0 <= k < p ==> name_lt()(#[trigger] d[k], s@),
        decreases v.len() - p,
    {
        p += 1;
    }
    if p < v.len() && v[p] == s {
        assert(d[p as int] == s@);
        assert(d.contains(s@));
        return;
    }
    proof {
        if p < v.len() {
            assert(d[p as int] != s@);
            assert(!name_lt()(d[p as int], s@));
        }
        lemma_insert_sorted(d, s@, p as int, name_lt());
        lemma_insert_contains(d, p as int, s@);
    }
    v.insert(p, s);
    assert(v.deep_view() =~= d.insert(p as int, s@));
}

/// Puts a list of names into a list of lists kept in order without repeats.
pub fn insert_names(v: &mut Vec<Vec<String>>, s: Vec<String>)
    requires
        sorted_by(old(v).deep_view(), names_lt()),
    ensures
        sorted_by(final(v).deep_view(), names_lt()),
        forall|x: Seq<Seq<char>>|
            #[trigger] final(v).deep_view().contains(x) <==> (old(v).deep_view().contains(x) || x
                == s.deep_view()),
{
    proof {
        lemma_names_order();
    }
    let ghost d = v.deep_view();
    let ghost sd = s.deep_view();
    let mut p: usize = 0;
    while p < v.len() && names_less(&v[p], &s)
        invariant
            0 <= p <= v.len(),
            d == v.deep_view(),
            sd == s.deep_view(),
            forall|k: int| 0 <= k < p ==> names_lt()(#[trigger] d[k], sd),
        decreases v.len() - p,
    {
        p += 1;
    }
    if p < v.len() && !names_less(&s, &v[p]) {
        proof {
            assert(!names_lt()(d[p as int], sd));
            assert(!names_lt()(sd, d[p as int]));
            assert(d[p as int] == sd);
            assert(d.contains(sd));
        }
        return;
    }
    proof {
        lemma_insert_sorted(d, sd, p as int, names_lt());
        lemma_insert_contains(d, p as int, sd);
    }
    v.insert(p, s);
    assert(v.deep_view() =~= d.insert(p as int, sd));
}

} // verus!

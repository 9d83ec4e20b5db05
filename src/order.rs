use vstd::prelude::*;

verus! {

/// Strict order on characters by code point; for UTF-8 text this is also the
/// order of the encoded bytes.
pub open spec fn char_lt(a: char, b: char) -> bool {
    (a as int) < (b as int)
}

/// Lexicographic comparison of `a` and `b`, starting at position `i`.
pub open spec fn lex_lt_from<T>(a: Seq<T>, b: Seq<T>, i: int, lt: spec_fn(T, T) -> bool) -> bool
    decreases a.len() - i,
{
    if i < 0 || i >= a.len() {
        0 <= i < b.len()
    } else if i >= b.len() {
        false
    } else if a[i] != b[i] {
        lt(a[i], b[i])
    } else {
        lex_lt_from(a, b, i + 1, lt)
    }
}

/// Lexicographic order on sequences: a proper prefix comes first, otherwise the
/// first differing element decides.
pub open spec fn lex_lt<T>(a: Seq<T>, b: Seq<T>, lt: spec_fn(T, T) -> bool) -> bool {
    lex_lt_from(a, b, 0, lt)
}

pub open spec fn char_order() -> spec_fn(char, char) -> bool {
    |x: char, y: char| char_lt(x, y)
}

/// Order on text: byte-wise (equivalently, code-point-wise) lexicographic.
pub open spec fn text_lt(a: Seq<char>, b: Seq<char>) -> bool {
    lex_lt(a, b, char_order())
}

pub open spec fn text_order() -> spec_fn(Seq<char>, Seq<char>) -> bool {
    |x: Seq<char>, y: Seq<char>| text_lt(x, y)
}

/// Order on paths given as component sequences: component by component.
pub open spec fn comps_lt(a: Seq<Seq<char>>, b: Seq<Seq<char>>) -> bool {
    lex_lt(a, b, text_order())
}

pub open spec fn comps_order() -> spec_fn(Seq<Seq<char>>, Seq<Seq<char>>) -> bool {
    |x: Seq<Seq<char>>, y: Seq<Seq<char>>| comps_lt(x, y)
}

pub open spec fn is_strict_total<T>(lt: spec_fn(T, T) -> bool) -> bool {
    &&& forall|x: T| #![trigger lt(x, x)] !lt(x, x)
    &&& forall|x: T, y: T, z: T| #![trigger lt(x, y), lt(y, z)] lt(x, y) && lt(y, z) ==> lt(x, z)
    &&& forall|x: T, y: T| #![trigger lt(x, y)] x != y ==> lt(x, y) || lt(y, x)
}

/// Every element is strictly below every later one (so there are no repeats).
pub open spec fn strictly_sorted<T>(s: Seq<T>, lt: spec_fn(T, T) -> bool) -> bool {
    forall|i: int, j: int| 0 <= i < j < s.len() ==> #[trigger] lt(s[i], s[j])
}

proof fn lemma_lex_irreflexive_from<T>(a: Seq<T>, i: int, lt: spec_fn(T, T) -> bool)
    requires
        0 <= i,
    ensures
        !lex_lt_from(a, a, i, lt),
    decreases a.len() - i,
{
    if i < a.len() {
        lemma_lex_irreflexive_from(a, i + 1, lt);
    }
}

proof fn lemma_lex_transitive_from<T>(
    a: Seq<T>,
    b: Seq<T>,
    c: Seq<T>,
    i: int,
    lt: spec_fn(T, T) -> bool,
)
    requires
        0 <= i,
        is_strict_total(lt),
        lex_lt_from(a, b, i, lt),
        lex_lt_from(b, c, i, lt),
    ensures
        lex_lt_from(a, c, i, lt),
    decreases a.len() - i,
{
    if i < a.len() && i < b.len() && i < c.len() {
        if a[i] == b[i] && b[i] == c[i] {
            lemma_lex_transitive_from(a, b, c, i + 1, lt);
        }
    }
}

proof fn lemma_lex_total_from<T>(a: Seq<T>, b: Seq<T>, i: int, lt: spec_fn(T, T) -> bool)
    requires
        0 <= i <= a.len(),
        i <= b.len(),
        is_strict_total(lt),
        a.subrange(0, i) == b.subrange(0, i),
        a != b,
    ensures
        lex_lt_from(a, b, i, lt) || lex_lt_from(b, a, i, lt),
    decreases a.len() - i,
{
    if i < a.len() && i < b.len() && a[i] == b[i] {
        assert(a.subrange(0, i + 1) =~= a.subrange(0, i).push(a[i]));
        assert(b.subrange(0, i + 1) =~= b.subrange(0, i).push(b[i]));
        lemma_lex_total_from(a, b, i + 1, lt);
    } else if i == a.len() && i == b.len() {
        assert(a =~= a.subrange(0, i));
        assert(b =~= b.subrange(0, i));
    }
}

/// Lexicographic extension of a strict total order is a strict total order.
pub proof fn lemma_lex_strict_total<T>(lt: spec_fn(T, T) -> bool)
    requires
        is_strict_total(lt),
    ensures
        is_strict_total(|x: Seq<T>, y: Seq<T>| lex_lt(x, y, lt)),
{
    assert forall|x: Seq<T>| !lex_lt(x, x, lt) by {
        lemma_lex_irreflexive_from(x, 0, lt);
    }
    assert forall|x: Seq<T>, y: Seq<T>, z: Seq<T>|
        lex_lt(x, y, lt) && lex_lt(y, z, lt) implies lex_lt(x, z, lt) by {
        lemma_lex_transitive_from(x, y, z, 0, lt);
    }
    assert forall|x: Seq<T>, y: Seq<T>| x != y implies lex_lt(x, y, lt) || lex_lt(y, x, lt) by {
        assert(x.subrange(0, 0) =~= y.subrange(0, 0));
        lemma_lex_total_from(x, y, 0, lt);
    }
}

pub proof fn lemma_text_order()
    ensures
        is_strict_total(text_order()),
{
    let cl = char_order();
    assert forall|x: char, y: char| x != y implies #[trigger] cl(x, y) || cl(y, x) by {
        assert(x as int != y as int);
    }
    lemma_lex_strict_total(cl);
    let tl = text_order();
    let ll = |x: Seq<char>, y: Seq<char>| lex_lt(x, y, cl);
    assert(forall|x: Seq<char>, y: Seq<char>| #[trigger] tl(x, y) == ll(x, y));
}

pub proof fn lemma_comps_order()
    ensures
        is_strict_total(comps_order()),
{
    lemma_text_order();
    let tl = text_order();
    lemma_lex_strict_total(tl);
    let cl = comps_order();
    let ll = |x: Seq<Seq<char>>, y: Seq<Seq<char>>| lex_lt(x, y, tl);
    assert(forall|x: Seq<Seq<char>>, y: Seq<Seq<char>>| #[trigger] cl(x, y) == ll(x, y));
}

/// A proper prefix comes before the sequences it begins.
pub proof fn lemma_prefix_first<T>(e: Seq<T>, x: Seq<T>, i: int, lt: spec_fn(T, T) -> bool)
    requires
        0 <= i <= e.len() < x.len(),
        x.subrange(0, e.len() as int) == e,
    ensures
        lex_lt_from(e, x, i, lt),
    decreases e.len() - i,
{
    if i < e.len() {
        assert(x[i] == x.subrange(0, e.len() as int)[i]);
        lemma_prefix_first(e, x, i + 1, lt);
    }
}

/// Whatever lies in order between a sequence and one of its extensions is an
/// extension of it too.
pub proof fn lemma_between_extends<T>(
    e: Seq<T>,
    y: Seq<T>,
    x: Seq<T>,
    i: int,
    lt: spec_fn(T, T) -> bool,
)
    requires
        is_strict_total(lt),
        0 <= i <= e.len() < x.len(),
        x.subrange(0, e.len() as int) == e,
        i <= y.len(),
        y.subrange(0, i) == e.subrange(0, i),
        lex_lt_from(e, y, i, lt),
        lex_lt_from(y, x, i, lt),
    ensures
        e.len() < y.len(),
        y.subrange(0, e.len() as int) == e,
    decreases e.len() - i,
{
    if i == e.len() {
        assert(e.subrange(0, i) =~= e);
    } else {
        assert(x[i] == x.subrange(0, e.len() as int)[i]);
        if i < y.len() && e[i] == y[i] {
            assert(y.subrange(0, i + 1) =~= y.subrange(0, i).push(y[i]));
            assert(e.subrange(0, i + 1) =~= e.subrange(0, i).push(e[i]));
            lemma_between_extends(e, y, x, i + 1, lt);
        } else if i < y.len() {
            assert(lt(e[i], y[i]) && lt(y[i], e[i]));
            assert(lt(e[i], e[i]));
        }
    }
}

/// Two sequences sorted by the same strict total order and holding the same
/// elements are equal.
pub proof fn lemma_sorted_unique<T>(a: Seq<T>, b: Seq<T>, lt: spec_fn(T, T) -> bool)
    requires
        is_strict_total(lt),
        strictly_sorted(a, lt),
        strictly_sorted(b, lt),
        forall|x: T| a.contains(x) <==> b.contains(x),
    ensures
        a == b,
    decreases a.len(),
{
    if a.len() == 0 {
        if b.len() > 0 {
            assert(b.contains(b[0]));
        }
        assert(a =~= b);
    } else {
        assert(a.contains(a[0]));
        assert(b.len() > 0);
        assert(b.contains(b[0]));
        if a[0] != b[0] {
            let p = choose|p: int| 0 <= p < b.len() && b[p] == a[0];
            let q = choose|q: int| 0 <= q < a.len() && a[q] == b[0];
            assert(lt(b[0], b[p]));
            assert(lt(a[0], a[q]));
            assert(lt(a[0], a[0]));
        }
        let ta = a.drop_first();
        let tb = b.drop_first();
        assert forall|i: int, j: int| 0 <= i < j < ta.len() implies #[trigger] lt(ta[i], ta[j]) by {
            assert(lt(a[i + 1], a[j + 1]));
        }
        assert forall|i: int, j: int| 0 <= i < j < tb.len() implies #[trigger] lt(tb[i], tb[j]) by {
            assert(lt(b[i + 1], b[j + 1]));
        }
        assert forall|x: T| ta.contains(x) <==> tb.contains(x) by {
            if ta.contains(x) {
                let p = choose|p: int| 0 <= p < ta.len() && ta[p] == x;
                assert(a[p + 1] == x);
                assert(a.contains(x));
                let r = choose|r: int| 0 <= r < b.len() && b[r] == x;
                if r == 0 {
                    assert(lt(a[0], a[p + 1]));
                    assert(lt(x, x));
                }
                assert(tb[r - 1] == x);
            }
            if tb.contains(x) {
                let p = choose|p: int| 0 <= p < tb.len() && tb[p] == x;
                assert(b[p + 1] == x);
                assert(b.contains(x));
                let r = choose|r: int| 0 <= r < a.len() && a[r] == x;
                if r == 0 {
                    assert(lt(b[0], b[p + 1]));
                    assert(lt(x, x));
                }
                assert(ta[r - 1] == x);
            }
        }
        lemma_sorted_unique(ta, tb, lt);
        assert(a =~= seq![a[0]] + ta);
        assert(b =~= seq![b[0]] + tb);
    }
}

} // verus!

verus! {

/// Relies on `Ord for str`, which std documents as lexicographic by byte
/// value; on UTF-8 text that is lexicographic by code point.
#[verifier::external_body]
pub(crate) fn str_less(a: &str, b: &str) -> (r: bool)
    ensures
        r == text_lt(a@, b@),
{
    a < b
}

} // verus!

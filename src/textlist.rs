use vstd::prelude::*;
use crate::order::{is_strict_total, lemma_text_order, str_less, strictly_sorted, text_order};
use crate::paths::texts;

verus! {

/// `s` without repeats, each kept at its first place.
pub open spec fn dedup(s: Seq<Seq<char>>) -> Seq<Seq<char>>
    decreases s.len(),
{
    if s.len() == 0 {
        seq![]
    } else if s.drop_last().contains(s.last()) {
        dedup(s.drop_last())
    } else {
        dedup(s.drop_last()).push(s.last())
    }
}

pub proof fn lemma_dedup_contains(s: Seq<Seq<char>>)
    ensures
        forall|x: Seq<char>| dedup(s).contains(x) <==> s.contains(x),
        dedup(s).no_duplicates(),
    decreases s.len(),
{
    if s.len() > 0 {
        let d = s.drop_last();
        lemma_dedup_contains(d);
        assert(s =~= d.push(s.last()));
        let dd = dedup(d);
        assert forall|x: Seq<char>| s.contains(x) <==> (d.contains(x) || x == s.last()) by {
            if s.contains(x) && x != s.last() {
                let p = choose|p: int| 0 <= p < s.len() && s[p] == x;
                assert(d[p] == x);
            }
            if d.contains(x) {
                let p = choose|p: int| 0 <= p < d.len() && d[p] == x;
                assert(s[p] == x);
            }
            if x == s.last() {
                assert(s[s.len() - 1] == x);
            }
        }
        if !d.contains(s.last()) {
            assert(dedup(s) == dd.push(s.last()));
            assert forall|x: Seq<char>| dd.push(s.last()).contains(x) <==> (dd.contains(x) || x
                == s.last()) by {
                if dd.push(s.last()).contains(x) && x != s.last() {
                    let p = choose|p: int| 0 <= p < dd.len() + 1 && dd.push(s.last())[p] == x;
                    assert(dd[p] == x);
                }
                if dd.contains(x) {
                    let p = choose|p: int| 0 <= p < dd.len() && dd[p] == x;
                    assert(dd.push(s.last())[p] == x);
                }
                if x == s.last() {
                    assert(dd.push(s.last())[dd.len() as int] == x);
                }
            }
        }
    }
}

/// Whether two texts are equal.
pub fn same_text(a: &str, b: &str) -> (r: bool)
    ensures
        r == (a@ == b@),
{
    let n = a.unicode_len();
    if n != b.unicode_len() {
        return false;
    }
    let mut i: usize = 0;
    while i < n
        invariant
            n == a@.len(),
            n == b@.len(),
            i <= n,
            forall|j: int| 0 <= j < i ==> a@[j] == b@[j],
        decreases n - i,
    {
        if a.get_char(i) != b.get_char(i) {
            return false;
        }
        i = i + 1;
    }
    assert(a@ =~= b@);
    true
}

/// Whether the list `v` holds the text `s`.
pub fn contains_text(v: &Vec<String>, s: &str) -> (r: bool)
    ensures
        r == texts(v@).contains(s@),
{
    let mut i: usize = 0;
    while i < v.len()
        invariant
            i <= v.len(),
            forall|j: int| 0 <= j < i ==> v@[j]@ != s@,
        decreases v.len() - i,
    {
        if same_text(v[i].as_str(), s) {
            assert(texts(v@)[i as int] == s@);
            return true;
        }
        i = i + 1;
    }
    proof {
        if texts(v@).contains(s@) {
            let p = choose|p: int| 0 <= p < texts(v@).len() && texts(v@)[p] == s@;
            assert(v@[p]@ == s@);
        }
    }
    false
}

/// Appends `s` to `seen` unless it is already there; `seen` stays `dedup` of
/// everything offered so far.
pub(crate) fn push_unique(seen: &mut Vec<String>, s: &str, Ghost(offered): Ghost<Seq<Seq<char>>>) -> (added: bool)
    requires
        texts(old(seen)@) == dedup(offered),
    ensures
        texts(final(seen)@) == dedup(offered.push(s@)),
        added == !offered.contains(s@),
{
    proof {
        lemma_dedup_contains(offered);
        assert(offered.push(s@).drop_last() =~= offered);
    }
    if contains_text(seen, s) {
        false
    } else {
        let ghost before = seen@;
        seen.push(String::from_str(s));
        assert(texts(seen@) =~= texts(before).push(s@));
        true
    }
}

/// A list of paths in text order without repeats: a file set.
pub open spec fn is_file_set(v: Seq<Seq<char>>) -> bool {
    strictly_sorted(v, text_order())
}

/// Adds `p` to the file set `v`, unless it is there already.
pub fn insert_path(v: &mut Vec<String>, p: String)
    requires
        is_file_set(texts(old(v)@)),
    ensures
        is_file_set(texts(final(v)@)),
        forall|x: Seq<char>|
            texts(final(v)@).contains(x) <==> (texts(old(v)@).contains(x) || x == p@),
{
    proof {
        lemma_text_order();
    }
    let ghost lt = text_order();
    let ghost x = p@;
    let ghost ev = texts(v@);
    let mut lo: usize = 0;
    let mut hi: usize = v.len();
    while lo < hi
        invariant
            lo <= hi <= v.len(),
            ev == texts(v@),
            strictly_sorted(ev, lt),
            lt == text_order(),
            is_strict_total(lt),
            x == p@,
            forall|k: int| 0 <= k < lo ==> #[trigger] lt(ev[k], x),
            forall|k: int| hi <= k < ev.len() ==> !#[trigger] lt(ev[k], x),
        decreases hi - lo,
    {
        let mid = lo + (hi - lo) / 2;
        assert(ev[mid as int] == v@[mid as int]@);
        if str_less(v[mid].as_str(), p.as_str()) {
            assert(lt(ev[mid as int], x));
            assert forall|k: int| 0 <= k < mid + 1 implies #[trigger] lt(ev[k], x) by {
                if k < mid {
                    assert(lt(ev[k], ev[mid as int]));
                }
            }
            lo = mid + 1;
        } else {
            assert forall|k: int| mid <= k < ev.len() implies !#[trigger] lt(ev[k], x) by {
                if k > mid && lt(ev[k], x) {
                    assert(lt(ev[mid as int], ev[k]));
                }
            }
            hi = mid;
        }
    }
    let j = lo;
    if j < v.len() && v[j] == p {
        assert(ev[j as int] == x);
        return;
    }
    v.insert(j, p);
    proof {
        let nv = texts(v@);
        assert(nv =~= ev.insert(j as int, x));
        if j < ev.len() {
            assert(ev[j as int] != x);
            assert(lt(x, ev[j as int]));
        }
        assert forall|a: int, b: int| 0 <= a < b < nv.len() implies #[trigger] lt(nv[a], nv[b]) by {
            if b < j {
                assert(lt(ev[a], ev[b]));
            } else if b == j {
                assert(lt(ev[a], x));
            } else if a < j {
                assert(lt(ev[a], ev[b - 1]));
            } else if a == j {
                if b - 1 > j {
                    assert(lt(ev[j as int], ev[b - 1]));
                }
                assert(lt(x, ev[b - 1]));
            } else {
                assert(lt(ev[a - 1], ev[b - 1]));
            }
        }
        assert forall|y: Seq<char>| nv.contains(y) <==> (ev.contains(y) || y == x) by {
            if nv.contains(y) {
                let q = choose|q: int| 0 <= q < nv.len() && nv[q] == y;
                if q < j {
                    assert(ev[q] == y);
                } else if q > j {
                    assert(ev[q - 1] == y);
                }
            }
            if ev.contains(y) {
                let q = choose|q: int| 0 <= q < ev.len() && ev[q] == y;
                if q < j {
                    assert(nv[q] == y);
                } else {
                    assert(nv[q + 1] == y);
                }
            }
            if y == x {
                assert(nv[j as int] == y);
            }
        }
    }
}

/// A file set names no path twice.
pub proof fn lemma_file_set_no_duplicates(v: Seq<Seq<char>>)
    requires
        is_file_set(v),
    ensures
        v.no_duplicates(),
{
    lemma_text_order();
    assert forall|i: int, j: int| 0 <= i < v.len() && 0 <= j < v.len() && i != j implies v[i]
        != v[j] by {
        if i < j {
            assert(text_order()(v[i], v[j]));
        } else {
            assert(text_order()(v[j], v[i]));
        }
    }
}

} // verus!
